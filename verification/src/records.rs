//! Record extraction: flattening inventory entries into one device record
//! per address. A malformed address fails the whole run; no partial record
//! list is produced.

use crate::dns_sync::SyncError;
use crate::ip::{parse_ip, spec_parse_ip, IpAddress};
use vstd::prelude::*;

verus! {

/// One device of the inventory: a hostname and its address literals, in the
/// order the inventory source reported them.
pub struct InventoryEntry {
    pub hostname: String,
    pub addresses: Vec<String>,
}

/// One hostname/address pair, the atomic unit of synchronization.
pub struct DeviceRecord {
    pub name: String,
    pub ip: IpAddress,
}

/// The mathematical value of a device record.
pub struct DeviceRecordView {
    pub name: Seq<char>,
    pub ip: IpAddress,
}

impl View for DeviceRecord {
    type V = DeviceRecordView;

    open spec fn view(&self) -> DeviceRecordView {
        DeviceRecordView { name: self.name@, ip: self.ip }
    }
}

/// Every address literal of the entry parses.
pub open spec fn entry_addresses_valid(e: InventoryEntry) -> bool {
    forall|j: int|
        0 <= j < e.addresses@.len() ==> spec_parse_ip(#[trigger] e.addresses@[j]@) is Some
}

/// The records of one entry: one per address, in input order, all under the
/// entry's hostname.
pub open spec fn spec_entry_records(e: InventoryEntry) -> Seq<DeviceRecordView> {
    Seq::new(
        e.addresses@.len(),
        |j: int|
            DeviceRecordView { name: e.hostname@, ip: spec_parse_ip(e.addresses@[j]@)->0 },
    )
}

/// The views of a record list.
pub open spec fn recs_view(rs: Seq<DeviceRecord>) -> Seq<DeviceRecordView> {
    rs.map_values(|d: DeviceRecord| d@)
}

pub open spec fn all_addresses_valid(es: Seq<InventoryEntry>) -> bool {
    forall|i: int| 0 <= i < es.len() ==> entry_addresses_valid(#[trigger] es[i])
}

/// The flat record list: devices in inventory order, each contributing one
/// record per address.
pub open spec fn spec_extract(es: Seq<InventoryEntry>) -> Seq<DeviceRecordView>
    decreases es.len(),
{
    if es.len() == 0 {
        Seq::empty()
    } else {
        spec_extract(es.drop_last()) + spec_entry_records(es.last())
    }
}

/// The number of addresses over all devices.
pub open spec fn total_address_count(es: Seq<InventoryEntry>) -> int
    decreases es.len(),
{
    if es.len() == 0 {
        0int
    } else {
        total_address_count(es.drop_last()) + es.last().addresses@.len()
    }
}

/// Law: the flat record list holds exactly one record per device address.
pub proof fn lemma_extract_count(es: Seq<InventoryEntry>)
    ensures
        spec_extract(es).len() == total_address_count(es),
    decreases es.len(),
{
    if es.len() > 0 {
        lemma_extract_count(es.drop_last());
    }
}

pub proof fn lemma_count_nonneg(es: Seq<InventoryEntry>)
    ensures
        total_address_count(es) >= 0,
    decreases es.len(),
{
    if es.len() > 0 {
        lemma_count_nonneg(es.drop_last());
    }
}

pub proof fn lemma_prefix_count_step(es: Seq<InventoryEntry>, i: int)
    requires
        0 <= i < es.len(),
    ensures
        total_address_count(es.subrange(0, i + 1)) == total_address_count(es.subrange(0, i))
            + es[i].addresses@.len(),
{
    let p = es.subrange(0, i + 1);
    assert(p.drop_last() =~= es.subrange(0, i));
    assert(p.last() == es[i]);
}

pub proof fn lemma_prefix_count_le(es: Seq<InventoryEntry>, a: int)
    requires
        0 <= a <= es.len(),
    ensures
        total_address_count(es.subrange(0, a)) <= total_address_count(es),
    decreases es.len(),
{
    if a == es.len() {
        assert(es.subrange(0, a) =~= es);
    } else {
        assert(es.drop_last().subrange(0, a) =~= es.subrange(0, a));
        lemma_prefix_count_le(es.drop_last(), a);
    }
}

/// Law: the record extracted for address `j` of device `i` carries that
/// device's hostname and that address's parse, and stands at the position
/// counting all earlier devices' addresses first — so every record's name
/// is its device's hostname, in inventory order.
pub proof fn lemma_extract_record_origin(es: Seq<InventoryEntry>, i: int, j: int)
    requires
        0 <= i < es.len(),
        0 <= j < es[i].addresses@.len(),
    ensures
        0 <= total_address_count(es.subrange(0, i)) + j < spec_extract(es).len(),
        spec_extract(es)[total_address_count(es.subrange(0, i)) + j] == (DeviceRecordView {
            name: es[i].hostname@,
            ip: spec_parse_ip(es[i].addresses@[j]@)->0,
        }),
    decreases es.len(),
{
    lemma_extract_count(es);
    lemma_count_nonneg(es.subrange(0, i));
    let idx = total_address_count(es.subrange(0, i)) + j;
    if i == es.len() - 1 {
        assert(es.subrange(0, i) =~= es.drop_last());
        lemma_extract_count(es.drop_last());
        assert(spec_extract(es)[idx] == spec_entry_records(es.last())[j]);
    } else {
        let es2 = es.drop_last();
        assert(es2.subrange(0, i) =~= es.subrange(0, i));
        assert(es2[i] == es[i]);
        lemma_extract_record_origin(es2, i, j);
        lemma_extract_count(es2);
        lemma_prefix_count_step(es2, i);
        lemma_prefix_count_le(es2, i + 1);
        assert(idx < total_address_count(es2));
        assert(spec_extract(es)[idx] == spec_extract(es2)[idx]);
    }
}

/// Flatten one device into records, one per address, preserving address
/// order; any unparsable address fails the device.
pub fn flatten_device_addresses(device: &InventoryEntry) -> (r: Result<Vec<DeviceRecord>, SyncError>)
    ensures
        (r is Ok) == entry_addresses_valid(*device),
        (r matches Ok(v) ==> recs_view(v@) == spec_entry_records(*device)),
        (r matches Err(e) ==> e matches SyncError::AddressParse { address } && exists|j: int|
            0 <= j < device.addresses@.len() && spec_parse_ip(#[trigger] device.addresses@[j]@)
                is None && address@ == device.addresses@[j]@),
{
    let mut out: Vec<DeviceRecord> = Vec::new();
    let mut j: usize = 0;
    while j < device.addresses.len()
        invariant
            j <= device.addresses@.len(),
            forall|k: int|
                0 <= k < j ==> spec_parse_ip(#[trigger] device.addresses@[k]@) is Some,
            recs_view(out@) == spec_entry_records(*device).subrange(0, j as int),
        decreases device.addresses@.len() - j,
    {
        match parse_ip(device.addresses[j].as_str()) {
            Some(ip) => {
                let ghost before = out@;
                let rec = DeviceRecord { name: device.hostname.clone(), ip };
                out.push(rec);
                proof {
                    assert(recs_view(before).len() == before.len());
                    assert(before.len() == j as int);
                    assert(out@.len() == j + 1);
                    let next = spec_entry_records(*device).subrange(0, j as int + 1);
                    assert forall|k: int| 0 <= k < next.len() implies recs_view(out@)[k] == next[k]
                    by {
                        if k < j as int {
                            assert(recs_view(before)[k] == spec_entry_records(*device).subrange(
                                0,
                                j as int,
                            )[k]);
                            assert(out@[k] == before[k]);
                        } else {
                            assert(out@[k] == out@.last());
                        }
                    }
                    assert(recs_view(out@) =~= next);
                }
            },
            None => {
                return Err(SyncError::AddressParse { address: device.addresses[j].clone() });
            },
        }
        j = j + 1;
    }
    assert(spec_entry_records(*device).subrange(0, device.addresses@.len() as int)
        =~= spec_entry_records(*device));
    Ok(out)
}

/// Flatten the whole inventory; a single malformed address fails the run and
/// no record list is produced.
pub fn extract_records(entries: &Vec<InventoryEntry>) -> (r: Result<Vec<DeviceRecord>, SyncError>)
    ensures
        (r is Ok) == all_addresses_valid(entries@),
        (r matches Ok(v) ==> recs_view(v@) == spec_extract(entries@)),
        (r matches Err(e) ==> e is AddressParse),
{
    let mut out: Vec<DeviceRecord> = Vec::new();
    let mut i: usize = 0;
    while i < entries.len()
        invariant
            i <= entries@.len(),
            forall|k: int| 0 <= k < i ==> entry_addresses_valid(#[trigger] entries@[k]),
            recs_view(out@) == spec_extract(entries@.subrange(0, i as int)),
        decreases entries@.len() - i,
    {
        let ghost prefix = entries@.subrange(0, i as int);
        match flatten_device_addresses(&entries[i]) {
            Ok(mut part) => {
                let ghost part_seq = part@;
                let ghost before = out@;
                out.append(&mut part);
                proof {
                    assert(recs_view(before).len() == before.len());
                    assert(recs_view(part_seq).len() == part_seq.len());
                    let next = entries@.subrange(0, i as int + 1);
                    assert(next.drop_last() =~= prefix);
                    assert(next.last() == entries@[i as int]);
                    assert(out@ == before + part_seq);
                    let target = spec_extract(prefix) + recs_view(part_seq);
                    assert forall|k: int| 0 <= k < target.len() implies recs_view(out@)[k]
                        == target[k]
                    by {
                        if k < before.len() {
                            assert(recs_view(before)[k] == spec_extract(prefix)[k]);
                            assert(out@[k] == before[k]);
                        } else {
                            assert(out@[k] == part_seq[k - before.len()]);
                            assert(recs_view(part_seq)[k - before.len()] == part_seq[k
                                - before.len()]@);
                        }
                    }
                    assert(recs_view(out@).len() == target.len());
                    assert(recs_view(out@) =~= target);
                    assert(spec_extract(next) == target);
                }
            },
            Err(e) => {
                return Err(e);
            },
        }
        i = i + 1;
    }
    assert(entries@.subrange(0, entries@.len() as int) =~= entries@);
    Ok(out)
}

} // verus!
