use bootdns::error::TargetError;
use bootdns::label::{derive_host_label, ends_with, make_fqdn};
use bootdns::resolver::{DomainCache, RegistrarDomain};

fn listing(entries: &[(&str, i32)]) -> Vec<RegistrarDomain> {
    entries.iter().map(|(n, id)| RegistrarDomain { name: n.to_string(), id: *id }).collect()
}

#[test]
fn suffix_test() {
    assert!(ends_with("myhost.example.com", "example.com"));
    assert!(ends_with("example.com", "example.com"));
    assert!(ends_with("abc", ""));
    assert!(!ends_with("example.com", "myhost.example.com"));
    assert!(!ends_with("example.org", "example.com"));
}

#[test]
fn host_label_strips_the_registrar_domain() {
    assert_eq!(derive_host_label("myhost.example.com", "example.com").unwrap(), "myhost");
    assert_eq!(derive_host_label("a.b.example.com", "example.com").unwrap(), "a.b");
    assert_eq!(derive_host_label("myhost.co.example.com", "example.com").unwrap(), "myhost.co");
}

#[test]
fn host_label_requires_the_dotted_suffix() {
    assert_eq!(
        derive_host_label("myhost.example.org", "example.com").unwrap_err(),
        TargetError::SuffixMismatch
    );
    assert_eq!(derive_host_label("example.com", "example.com").unwrap_err(), TargetError::SuffixMismatch);
    assert_eq!(derive_host_label("myhostexample.com", "example.com").unwrap_err(), TargetError::SuffixMismatch);
}

#[test]
fn host_label_round_trip() {
    for (fqdn, domain) in [("myhost.example.com", "example.com"), ("x.y.z.org", "z.org"), (".a.b", "a.b")] {
        let label = derive_host_label(fqdn, domain).unwrap();
        assert_eq!(make_fqdn(&label, domain), fqdn);
    }
    let fqdn = make_fqdn("router", "home.example.net");
    assert_eq!(fqdn, "router.home.example.net");
    assert_eq!(derive_host_label(&fqdn, "home.example.net").unwrap(), "router");
}

#[test]
fn cache_starts_unloaded_and_loads_once() {
    let mut cache = DomainCache::new();
    assert!(!cache.is_loaded());
    assert_eq!(cache.resolve("example.com").unwrap_err(), TargetError::DomainNotFound);
    cache.load(listing(&[("example.com", 1)]));
    assert!(cache.is_loaded());
    assert_eq!(cache.resolve("example.com").unwrap().id, 1);
}

#[test]
fn resolver_prefers_longest_suffix() {
    let mut cache = DomainCache::new();
    cache.load(listing(&[("example.com", 1), ("co.example.com", 2)]));
    let d = cache.resolve("co.example.com").unwrap();
    assert_eq!(d.name, "co.example.com");
    assert_eq!(d.id, 2);
    let mut reversed = DomainCache::new();
    reversed.load(listing(&[("co.example.com", 2), ("example.com", 1)]));
    assert_eq!(reversed.resolve("co.example.com").unwrap().id, 2);
    assert_eq!(reversed.resolve("www.example.com").unwrap().id, 1);
    assert_eq!(reversed.resolve_index("sub.co.example.com").unwrap(), 0);
}

#[test]
fn resolver_reports_missing_and_ambiguous_domains() {
    let mut cache = DomainCache::new();
    cache.load(listing(&[("example.com", 1), ("example.com", 7), ("other.org", 3)]));
    assert_eq!(cache.resolve("example.net").unwrap_err(), TargetError::DomainNotFound);
    assert_eq!(cache.resolve("example.com").unwrap_err(), TargetError::AmbiguousDomain);
    assert_eq!(cache.resolve("www.other.org").unwrap().id, 3);
}
