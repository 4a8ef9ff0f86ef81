//! The cloud hosted-zone backend's verified half: the zone/domain handle,
//! the mapping from device records to its change batch, and the report
//! message composed from the provider's change id. The network client that
//! ships the batch lives outside the library and consumes these values.

use crate::changes::{build_change_batch, spec_build, spec_change_of, ChangeBatch, ChangeOperation};
use crate::dns_sync::SyncReport;
use crate::records::{recs_view, DeviceRecord};
use vstd::prelude::*;

verus! {

/// A hosted zone to synchronize: the provider-side zone id and the domain
/// under which record names are built.
pub struct Route53Sync {
    pub hosted_zone_id: String,
    pub domain: String,
}

impl Route53Sync {
    /// A handle for one hosted zone and its domain.
    pub fn new(hosted_zone_id: String, domain: String) -> (r: Route53Sync)
        ensures
            r.hosted_zone_id == hosted_zone_id,
            r.domain == domain,
    {
        Route53Sync { hosted_zone_id, domain }
    }

    /// The upsert operation for one device record in this zone's domain.
    pub fn map_device_record_to_change(&self, device: &DeviceRecord) -> (op: ChangeOperation)
        ensures
            op@ == spec_change_of(device@, self.domain@),
    {
        crate::changes::change_for_record(device, self.domain.as_str())
    }

    /// The full batch for a record list: one upsert per record, in order.
    pub fn build_change_batch(&self, records: &Vec<DeviceRecord>) -> (b: ChangeBatch)
        ensures
            b@ == spec_build(recs_view(records@), self.domain@),
    {
        build_change_batch(records, self.domain.as_str())
    }
}

/// The report for a successful application, from the change id the provider
/// returned.
pub fn make_sync_report(change_id: &str) -> (r: SyncReport)
    ensures
        r.message@ == "Hosted zone updated with change ID "@ + change_id@,
{
    let mut message = "Hosted zone updated with change ID ".to_owned();
    message.append(change_id);
    SyncReport { message }
}

} // verus!
