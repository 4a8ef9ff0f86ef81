//! The orchestrator: the linear pipeline from an already-fetched inventory
//! through extraction and batch application to a summary. Any stage failure
//! aborts the run; nothing downstream of the failing stage executes.

use crate::dns_sync::{DNSSync, SyncError};
use crate::ip::dec_str;
use crate::records::{all_addresses_valid, extract_records, spec_extract, InventoryEntry};
use vstd::prelude::*;

verus! {

/// The outcome of a successful run: how many records were synced for how
/// many devices, to which domain, with the provider's own message.
pub struct Summary {
    pub record_count: usize,
    pub device_count: usize,
    pub domain: String,
    pub message: String,
}

/// Run the pipeline on a fetched inventory: extract one record per address,
/// resolve the target domain to a zone, build the change batch, apply it,
/// and summarize.
///
/// A malformed address fails the run before the provider is invoked; any
/// stage failure aborts the stages after it; on success the summary counts
/// exactly the extracted records and the inventory's devices.
pub fn run<P: DNSSync>(provider: &mut P, entries: &Vec<InventoryEntry>, domain: &str) -> (r: Result<
    Summary,
    SyncError,
>)
    ensures
        !all_addresses_valid(entries@) ==> (r matches Err(e) && e is AddressParse)
            && *final(provider) == *old(provider),
        (r matches Err(e) && e is AddressParse) ==> !all_addresses_valid(entries@),
        (r matches Ok(s) ==> all_addresses_valid(entries@) && s.record_count == spec_extract(
            entries@,
        ).len() && s.device_count == entries@.len() && s.domain@ == domain@),
{
    let records = match extract_records(entries) {
        Ok(v) => v,
        Err(e) => {
            return Err(e);
        },
    };
    let zone = match provider.resolve_zone(domain) {
        Ok(z) => z,
        Err(e) => {
            return Err(e);
        },
    };
    let batch = crate::changes::build_change_batch(&records, domain);
    let report = match provider.apply_change_batch(&zone, batch) {
        Ok(rep) => rep,
        Err(e) => {
            return Err(e);
        },
    };
    Ok(
        Summary {
            record_count: records.len(),
            device_count: entries.len(),
            domain: domain.to_owned(),
            message: report.message,
        },
    )
}

/// The one-line human summary of a successful run.
pub fn summary_line(s: &Summary) -> (r: String)
    ensures
        r@ == "Synced "@ + dec_str(s.record_count as int) + " DNS records for "@ + dec_str(
            s.device_count as int,
        ) + " devices to domain "@ + s.domain@,
{
    let mut line = "Synced ".to_owned();
    let rc = crate::ip::dec_string_u64(s.record_count as u64);
    line.append(rc.as_str());
    line.append(" DNS records for ");
    let dc = crate::ip::dec_string_u64(s.device_count as u64);
    line.append(dc.as_str());
    line.append(" devices to domain ");
    line.append(s.domain.as_str());
    assert(line@ =~= "Synced "@ + dec_str(s.record_count as int) + " DNS records for "@ + dec_str(
        s.device_count as int,
    ) + " devices to domain "@ + s.domain@);
    line
}

} // verus!
