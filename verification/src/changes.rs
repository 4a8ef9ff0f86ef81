//! The change-set builder: mapping device records and a target domain into
//! an ordered batch of DNS upsert operations.
//!
//! Building is a pure function of its inputs: identical records and domain
//! always yield an identical batch, which makes a run idempotent at the
//! provider's upsert semantics.

use crate::ip::{spec_ip_str, ip_to_string, IpAddress};
use crate::records::{recs_view, DeviceRecord, DeviceRecordView};
use crate::DEFAULT_TTL;
use vstd::prelude::*;

verus! {

/// The action of a change operation; this engine only ever upserts.
#[derive(Clone, Copy, PartialEq, Eq, Structural, Debug)]
pub enum ChangeAction {
    Upsert,
}

/// The DNS record type, a pure function of the address family.
#[derive(Clone, Copy, PartialEq, Eq, Structural, Debug)]
pub enum RecordType {
    A,
    Aaaa,
}

/// One upsert operation of a change batch.
pub struct ChangeOperation {
    pub action: ChangeAction,
    pub record_name: String,
    pub record_type: RecordType,
    pub value: String,
    pub ttl: u64,
}

/// The mathematical value of a change operation.
pub struct ChangeOperationView {
    pub action: ChangeAction,
    pub record_name: Seq<char>,
    pub record_type: RecordType,
    pub value: Seq<char>,
    pub ttl: u64,
}

impl View for ChangeOperation {
    type V = ChangeOperationView;

    open spec fn view(&self) -> ChangeOperationView {
        ChangeOperationView {
            action: self.action,
            record_name: self.record_name@,
            record_type: self.record_type,
            value: self.value@,
            ttl: self.ttl,
        }
    }
}

/// An ordered batch of change operations, applied by a provider as a single
/// transactional unit.
pub struct ChangeBatch {
    pub changes: Vec<ChangeOperation>,
}

/// The views of an operation list.
pub open spec fn ops_view(ops: Seq<ChangeOperation>) -> Seq<ChangeOperationView> {
    ops.map_values(|op: ChangeOperation| op@)
}

impl View for ChangeBatch {
    type V = Seq<ChangeOperationView>;

    open spec fn view(&self) -> Seq<ChangeOperationView> {
        ops_view(self.changes@)
    }
}

/// The record type for an address: A for IPv4, AAAA for IPv6.
pub open spec fn spec_record_type(ip: IpAddress) -> RecordType {
    if ip.is_v4() {
        RecordType::A
    } else {
        RecordType::Aaaa
    }
}

/// The fully qualified record name: hostname, dot, domain.
pub open spec fn spec_record_name(host: Seq<char>, domain: Seq<char>) -> Seq<char> {
    host + seq!['.'] + domain
}

/// The operation for one record in one domain.
pub open spec fn spec_change_of(rec: DeviceRecordView, domain: Seq<char>) -> ChangeOperationView {
    ChangeOperationView {
        action: ChangeAction::Upsert,
        record_name: spec_record_name(rec.name, domain),
        record_type: spec_record_type(rec.ip),
        value: spec_ip_str(rec.ip),
        ttl: DEFAULT_TTL,
    }
}

/// The batch for a record list: one operation per record, in input order,
/// nothing merged and nothing deduplicated.
pub open spec fn spec_build(records: Seq<DeviceRecordView>, domain: Seq<char>) -> Seq<
    ChangeOperationView,
> {
    records.map_values(|rec: DeviceRecordView| spec_change_of(rec, domain))
}

/// Law: building is pure — equal record views and equal domains give equal
/// batches, so applying a rebuilt batch is idempotent under upserts.
pub proof fn lemma_build_deterministic(
    records1: Seq<DeviceRecordView>,
    domain1: Seq<char>,
    records2: Seq<DeviceRecordView>,
    domain2: Seq<char>,
)
    requires
        records1 == records2,
        domain1 == domain2,
    ensures
        spec_build(records1, domain1) == spec_build(records2, domain2),
{
}

/// Law: the batch has exactly one operation per record.
pub proof fn lemma_build_len(records: Seq<DeviceRecordView>, domain: Seq<char>)
    ensures
        spec_build(records, domain).len() == records.len(),
{
}

/// Law: every operation's name is the record's hostname, a dot, and the
/// domain — independent of the address family.
pub proof fn lemma_build_record_name(records: Seq<DeviceRecordView>, domain: Seq<char>, i: int)
    requires
        0 <= i < records.len(),
    ensures
        spec_build(records, domain)[i].record_name == records[i].name + seq!['.'] + domain,
{
}

/// Law: IPv4 records always get type A, IPv6 records always get type AAAA,
/// and every operation is an upsert with the fixed time-to-live.
pub proof fn lemma_build_record_type(records: Seq<DeviceRecordView>, domain: Seq<char>, i: int)
    requires
        0 <= i < records.len(),
    ensures
        spec_build(records, domain)[i].record_type == spec_record_type(records[i].ip),
        records[i].ip is V4 <==> spec_build(records, domain)[i].record_type == RecordType::A,
        records[i].ip is V6 <==> spec_build(records, domain)[i].record_type == RecordType::Aaaa,
        spec_build(records, domain)[i].action == ChangeAction::Upsert,
        spec_build(records, domain)[i].ttl == DEFAULT_TTL,
{
}

/// The operation for one device record in `domain`.
pub fn change_for_record(device: &DeviceRecord, domain: &str) -> (op: ChangeOperation)
    ensures
        op@ == spec_change_of(device@, domain@),
{
    proof {
        reveal_strlit(".");
    }
    let record_type = match device.ip {
        IpAddress::V4(_, _, _, _) => RecordType::A,
        IpAddress::V6(_, _, _, _, _, _, _, _) => RecordType::Aaaa,
    };
    let mut name = device.name.clone();
    name.append(".");
    name.append(domain);
    assert(name@ =~= spec_record_name(device.name@, domain@)) by {
        assert("."@ =~= seq!['.']);
    }
    let value = ip_to_string(&device.ip);
    ChangeOperation { action: ChangeAction::Upsert, record_name: name, record_type, value, ttl: DEFAULT_TTL }
}

/// Build the batch for a record list: one upsert per record, in order.
pub fn build_change_batch(records: &Vec<DeviceRecord>, domain: &str) -> (b: ChangeBatch)
    ensures
        b@ == spec_build(recs_view(records@), domain@),
{
    let ghost rviews = recs_view(records@);
    let mut changes: Vec<ChangeOperation> = Vec::new();
    let mut i: usize = 0;
    while i < records.len()
        invariant
            i <= records@.len(),
            rviews == recs_view(records@),
            ops_view(changes@) == spec_build(rviews.subrange(0, i as int), domain@),
        decreases records@.len() - i,
    {
        let ghost before = changes@;
        let op = change_for_record(&records[i], domain);
        changes.push(op);
        proof {
            assert(ops_view(before).len() == before.len());
            assert(before.len() == i as int);
            assert(changes@.len() == i + 1);
            let next = rviews.subrange(0, i as int + 1);
            assert(next.drop_last() =~= rviews.subrange(0, i as int));
            assert(next.last() == rviews[i as int]);
            assert(rviews[i as int] == records@[i as int]@);
            assert forall|k: int| 0 <= k < next.len() implies ops_view(changes@)[k] == spec_build(
                next,
                domain@,
            )[k] by {
                if k < i as int {
                    assert(ops_view(before)[k] == spec_build(
                        rviews.subrange(0, i as int),
                        domain@,
                    )[k]);
                    assert(changes@[k] == before[k]);
                } else {
                    assert(changes@[k] == changes@.last());
                }
            }
            assert(ops_view(changes@) =~= spec_build(next, domain@));
        }
        i = i + 1;
    }
    assert(rviews.subrange(0, records@.len() as int) =~= rviews);
    ChangeBatch { changes }
}

} // verus!
