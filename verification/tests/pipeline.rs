//! The pipeline end to end against the in-memory backend: extraction, batch
//! construction, orchestration, and the failure and no-op paths.

use tailscale_dns::changes::{build_change_batch, ChangeAction, RecordType};
use tailscale_dns::dns_sync::{DNSSync, MemoryDNSSync, SyncError};
use tailscale_dns::ip::parse_ip;
use tailscale_dns::orchestrator::{run, summary_line, Summary};
use tailscale_dns::records::{extract_records, flatten_device_addresses, DeviceRecord, InventoryEntry};
use tailscale_dns::route53::{make_sync_report, Route53Sync};
use tailscale_dns::DEFAULT_TTL;

fn entry(hostname: &str, addresses: &[&str]) -> InventoryEntry {
    InventoryEntry {
        hostname: hostname.to_string(),
        addresses: addresses.iter().map(|a| a.to_string()).collect(),
    }
}

#[test]
fn three_record_inventory_builds_three_upserts() {
    let entries = vec![entry("alpha", &["10.0.0.1"]), entry("beta", &["10.0.0.2", "fe80::1"])];
    let records = extract_records(&entries).unwrap();
    assert_eq!(records.len(), 3);

    let batch = build_change_batch(&records, "example.com");
    assert_eq!(batch.changes.len(), 3);

    let expected = [
        ("alpha.example.com", RecordType::A, "10.0.0.1"),
        ("beta.example.com", RecordType::A, "10.0.0.2"),
        ("beta.example.com", RecordType::Aaaa, "fe80::1"),
    ];
    for (op, (name, rtype, value)) in batch.changes.iter().zip(expected.iter()) {
        assert_eq!(op.action, ChangeAction::Upsert);
        assert_eq!(op.record_name, *name);
        assert_eq!(op.record_type, *rtype);
        assert_eq!(op.value, *value);
        assert_eq!(op.ttl, 300);
    }
}

#[test]
fn record_count_is_sum_of_address_counts() {
    let entries = vec![
        entry("a", &[]),
        entry("b", &["10.0.0.1"]),
        entry("c", &["10.0.0.2", "10.0.0.3", "fe80::c"]),
    ];
    let records = extract_records(&entries).unwrap();
    assert_eq!(records.len(), 0 + 1 + 3);
}

#[test]
fn extraction_preserves_order_and_names() {
    let entries = vec![entry("beta", &["fe80::2", "10.9.8.7"]), entry("alpha", &["10.0.0.1"])];
    let records = extract_records(&entries).unwrap();
    let names: Vec<&str> = records.iter().map(|r| r.name.as_str()).collect();
    assert_eq!(names, ["beta", "beta", "alpha"]);
    assert_eq!(records[0].ip, parse_ip("fe80::2").unwrap());
    assert_eq!(records[1].ip, parse_ip("10.9.8.7").unwrap());
    assert_eq!(records[2].ip, parse_ip("10.0.0.1").unwrap());
}

#[test]
fn build_is_idempotent_on_identical_inputs() {
    let entries = vec![entry("alpha", &["10.0.0.1", "fe80::1"])];
    let records = extract_records(&entries).unwrap();
    let first = build_change_batch(&records, "example.com");
    let second = build_change_batch(&records, "example.com");
    assert_eq!(first.changes.len(), second.changes.len());
    for (a, b) in first.changes.iter().zip(second.changes.iter()) {
        assert_eq!(a.action, b.action);
        assert_eq!(a.record_name, b.record_name);
        assert_eq!(a.record_type, b.record_type);
        assert_eq!(a.value, b.value);
        assert_eq!(a.ttl, b.ttl);
    }
}

#[test]
fn malformed_address_fails_without_touching_the_provider() {
    let entries = vec![entry("alpha", &["10.0.0.1"]), entry("bad", &["not-an-ip"])];
    let mut provider = MemoryDNSSync::new("example.com".to_string());
    let result = run(&mut provider, &entries, "example.com");
    match result {
        Err(SyncError::AddressParse { address }) => assert_eq!(address, "not-an-ip"),
        _ => panic!("expected an address parse failure"),
    }
    assert_eq!(provider.applied_count(), 0);
}

#[test]
fn flatten_reports_the_offending_literal() {
    let device = entry("alpha", &["10.0.0.1", "10.0.0.999"]);
    match flatten_device_addresses(&device) {
        Err(SyncError::AddressParse { address }) => assert_eq!(address, "10.0.0.999"),
        _ => panic!("expected an address parse failure"),
    }
}

#[test]
fn empty_inventory_is_a_successful_no_op() {
    let entries: Vec<InventoryEntry> = Vec::new();
    let mut provider = MemoryDNSSync::new("example.com".to_string());
    let summary = run(&mut provider, &entries, "example.com").unwrap();
    assert_eq!(summary.record_count, 0);
    assert_eq!(summary.device_count, 0);
    assert_eq!(summary.domain, "example.com");
    assert_eq!(provider.applied_count(), 1);
    assert_eq!(provider.applied[0].changes.len(), 0);
}

#[test]
fn run_applies_one_batch_with_all_records() {
    let entries = vec![entry("alpha", &["10.0.0.1"]), entry("beta", &["10.0.0.2", "fe80::1"])];
    let mut provider = MemoryDNSSync::new("example.com".to_string());
    let summary = run(&mut provider, &entries, "example.com").unwrap();
    assert_eq!(summary.record_count, 3);
    assert_eq!(summary.device_count, 2);
    assert_eq!(provider.applied_count(), 1);
    let batch = &provider.applied[0];
    assert_eq!(batch.changes.len(), 3);
    assert_eq!(batch.changes[2].record_name, "beta.example.com");
    assert_eq!(batch.changes[2].record_type, RecordType::Aaaa);
}

// The provider is pluggable: the same pipeline runs against any backend.
fn run_against<P: DNSSync>(provider: &mut P) -> usize {
    let entries = vec![entry("alpha", &["10.0.0.1"])];
    run(provider, &entries, "example.com").unwrap().record_count
}

#[test]
fn provider_is_pluggable() {
    let mut provider = MemoryDNSSync::new("example.com".to_string());
    assert_eq!(run_against(&mut provider), 1);
}

#[test]
fn unknown_domain_resolves_to_no_zone() {
    let mut provider = MemoryDNSSync::new("example.com".to_string());
    let entries = vec![entry("alpha", &["10.0.0.1"])];
    match run(&mut provider, &entries, "other.org") {
        Err(SyncError::ZoneNotFound { domain }) => assert_eq!(domain, "other.org"),
        _ => panic!("expected a zone resolution failure"),
    }
    assert_eq!(provider.applied_count(), 0);
}

#[test]
fn matching_domain_resolves_to_the_zone() {
    let mut provider = MemoryDNSSync::new("example.com".to_string());
    let zone = provider.resolve_zone("example.com").unwrap();
    assert_eq!(zone.name, "example.com");
    assert_eq!(zone.id, "memory-zone");
}

#[test]
fn update_applies_one_batch_for_the_backend_domain() {
    let mut provider = MemoryDNSSync::new("example.com".to_string());
    let records = vec![DeviceRecord { name: "alpha".to_string(), ip: parse_ip("10.0.0.1").unwrap() }];
    let report = provider.update(&records).unwrap();
    assert_eq!(report.message, "change batch applied");
    assert_eq!(provider.applied_count(), 1);
    assert_eq!(provider.applied[0].changes[0].record_name, "alpha.example.com");
}

#[test]
fn route53_handle_keeps_zone_and_domain() {
    let sync = Route53Sync::new("Z123456".to_string(), "example.com".to_string());
    assert_eq!(sync.hosted_zone_id, "Z123456");
    assert_eq!(sync.domain, "example.com");
}

#[test]
fn route53_maps_one_record_per_change() {
    let sync = Route53Sync::new("Z123456".to_string(), "example.com".to_string());
    let record = DeviceRecord { name: "alpha".to_string(), ip: parse_ip("10.0.0.1").unwrap() };
    let op = sync.map_device_record_to_change(&record);
    assert_eq!(op.record_name, "alpha.example.com");
    assert_eq!(op.record_type, RecordType::A);
    assert_eq!(op.value, "10.0.0.1");
    assert_eq!(op.ttl, DEFAULT_TTL);
    assert_eq!(op.action, ChangeAction::Upsert);

    let batch = sync.build_change_batch(&vec![record]);
    assert_eq!(batch.changes.len(), 1);
    assert_eq!(batch.changes[0].record_name, "alpha.example.com");
}

#[test]
fn report_message_carries_the_change_id() {
    let report = make_sync_report("C0123456789");
    assert_eq!(report.message, "Hosted zone updated with change ID C0123456789");
}

#[test]
fn summary_line_counts_records_and_devices() {
    let summary = Summary {
        record_count: 3,
        device_count: 2,
        domain: "example.com".to_string(),
        message: "ok".to_string(),
    };
    assert_eq!(
        summary_line(&summary),
        "Synced 3 DNS records for 2 devices to domain example.com"
    );
}
