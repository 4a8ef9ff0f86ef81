//! The DNS-provider abstraction: the error taxonomy of a run, the report of
//! a successful application, and the pluggable backend capability, with an
//! in-memory backend for use without network access.

use crate::changes::{build_change_batch, spec_build, ChangeBatch};
use crate::records::{recs_view, DeviceRecord};
use vstd::prelude::*;

verus! {

/// Why a run failed. Every error is fatal: nothing is retried, nothing
/// downstream of the failing stage executes.
#[derive(Debug)]
pub enum SyncError {
    /// An inventory address is not a valid IPv4 or IPv6 literal; carries the
    /// offending literal.
    AddressParse { address: String },
    /// The inventory source could not be read.
    InventoryFetch { message: String },
    /// No hosted zone matches the target domain.
    ZoneNotFound { domain: String },
    /// The provider rejected the credentials.
    ProviderAuth { message: String },
    /// The provider could not be reached.
    ProviderNetwork { message: String },
    /// The provider rejected the change batch.
    ProviderApply { message: String },
}

/// Summary of a successful application, as reported by the provider.
pub struct SyncReport {
    pub message: String,
}

/// A resolved hosted zone: the provider-side id and the zone's name.
pub struct ZoneHandle {
    pub id: String,
    pub name: String,
}

/// The capability a DNS backend implements: resolve a domain to a zone
/// handle, apply an ordered change batch to a zone as one transactional
/// unit, and — the convenience the whole pipeline rests on — apply the
/// records of its own zone as one batch of upserts.
///
/// Whether a call succeeds is the backend's affair; which errors each call
/// may fail with is not: resolution fails only because the zone is missing
/// or the provider is unreachable or rejects the credentials, and an
/// application fails only because the provider rejects the batch, the
/// credentials, or cannot be reached. No backend call ever reports an
/// address-parse failure.
pub trait DNSSync {
    fn resolve_zone(&mut self, domain: &str) -> (r: Result<ZoneHandle, SyncError>)
        ensures
            (r matches Err(e) ==> e is ZoneNotFound || e is ProviderAuth || e
                is ProviderNetwork),
    ;

    fn apply_change_batch(&mut self, zone: &ZoneHandle, batch: ChangeBatch) -> (r: Result<
        SyncReport,
        SyncError,
    >)
        ensures
            (r matches Err(e) ==> e is ProviderApply || e is ProviderAuth || e
                is ProviderNetwork),
    ;

    fn update(&mut self, records: &Vec<DeviceRecord>) -> (r: Result<SyncReport, SyncError>)
        ensures
            (r matches Err(e) ==> e is ZoneNotFound || e is ProviderApply || e is ProviderAuth
                || e is ProviderNetwork),
    ;
}

/// Character-for-character equality of two strings.
fn str_eq(a: &str, b: &str) -> (r: bool)
    ensures
        r == (a@ == b@),
{
    let n = a.unicode_len();
    let m = b.unicode_len();
    if n != m {
        return false;
    }
    let mut i: usize = 0;
    while i < n
        invariant
            n == a@.len(),
            n == b@.len(),
            i <= n,
            forall|k: int| 0 <= k < i ==> a@[k] == b@[k],
        decreases n - i,
    {
        if a.get_char(i) != b.get_char(i) {
            return false;
        }
        i = i + 1;
    }
    assert(a@ =~= b@);
    true
}

/// An in-memory backend: it owns one zone for one domain and keeps every
/// batch it applied, so the pipeline can be exercised without a network.
pub struct MemoryDNSSync {
    pub domain: String,
    pub zone_id: String,
    pub applied: Vec<ChangeBatch>,
}

impl MemoryDNSSync {
    /// A fresh in-memory zone for `domain`, with nothing applied yet.
    pub fn new(domain: String) -> (r: MemoryDNSSync)
        ensures
            r.domain == domain,
            r.zone_id@ == "memory-zone"@,
            r.applied@ == Seq::<ChangeBatch>::empty(),
    {
        MemoryDNSSync { domain, zone_id: "memory-zone".to_owned(), applied: Vec::new() }
    }

    /// How many batches have been applied.
    pub fn applied_count(&self) -> (n: usize)
        ensures
            n == self.applied@.len(),
    {
        self.applied.len()
    }
}

impl DNSSync for MemoryDNSSync {
    /// The only zone this backend can resolve is its own domain; any other
    /// domain has no matching zone.
    fn resolve_zone(&mut self, domain: &str) -> (r: Result<ZoneHandle, SyncError>)
        ensures
            *final(self) == *old(self),
            (r is Ok) == (domain@ == old(self).domain@),
            (r matches Ok(z) ==> z.id == old(self).zone_id && z.name@ == domain@),
            (r matches Err(e) ==> e matches SyncError::ZoneNotFound { domain: d } && d@
                == domain@),
    {
        if str_eq(domain, self.domain.as_str()) {
            Ok(ZoneHandle { id: self.zone_id.clone(), name: domain.to_owned() })
        } else {
            Err(SyncError::ZoneNotFound { domain: domain.to_owned() })
        }
    }

    /// Applying appends the batch, whatever zone handle is presented, and
    /// never fails: the in-memory store accepts any well-formed batch.
    fn apply_change_batch(&mut self, zone: &ZoneHandle, batch: ChangeBatch) -> (r: Result<
        SyncReport,
        SyncError,
    >)
        ensures
            r is Ok,
            final(self).domain == old(self).domain,
            final(self).zone_id == old(self).zone_id,
            final(self).applied@ == old(self).applied@.push(batch),
    {
        self.applied.push(batch);
        Ok(SyncReport { message: "change batch applied".to_owned() })
    }

    /// Applying builds the batch for this zone's domain and appends it to
    /// the applied history; the in-memory zone never fails.
    fn update(&mut self, records: &Vec<DeviceRecord>) -> (r: Result<SyncReport, SyncError>)
        ensures
            r is Ok,
            final(self).domain == old(self).domain,
            final(self).zone_id == old(self).zone_id,
            final(self).applied@.len() == old(self).applied@.len() + 1,
            final(self).applied@.last()@ == spec_build(recs_view(records@), old(self).domain@),
            forall|k: int|
                0 <= k < old(self).applied@.len() ==> final(self).applied@[k] == old(
                    self,
                ).applied@[k],
    {
        let batch = build_change_batch(records, self.domain.as_str());
        self.applied.push(batch);
        Ok(SyncReport { message: "change batch applied".to_owned() })
    }
}

} // verus!
