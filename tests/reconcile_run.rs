use bootdns::error::{ClientError, TargetError};
use bootdns::matcher::Target;
use bootdns::plan::{plan_writes, DnsRecord, Write};
use bootdns::reconcile::{Action, Event, Outcome, Run};
use bootdns::resolver::RegistrarDomain;

struct FakeRegistrar {
    domains: Vec<(String, i32)>,
    records: Vec<(i32, DnsRecord)>,
    fail_list_records: bool,
    fail_writes: bool,
    domain_calls: usize,
    list_calls: usize,
    creates: Vec<(i32, String, String)>,
    updates: Vec<(i32, i64, String, String)>,
    next_id: i64,
}

impl FakeRegistrar {
    fn new(domains: &[(&str, i32)]) -> Self {
        FakeRegistrar {
            domains: domains.iter().map(|(n, i)| (n.to_string(), *i)).collect(),
            records: Vec::new(),
            fail_list_records: false,
            fail_writes: false,
            domain_calls: 0,
            list_calls: 0,
            creates: Vec::new(),
            updates: Vec::new(),
            next_id: 100,
        }
    }

    fn add_record(&mut self, domain_id: i32, id: i64, host: &str, data: &str) {
        self.records.push((domain_id, DnsRecord { id, host: host.to_string(), data: data.to_string() }));
    }

    fn writes(&self) -> usize {
        self.creates.len() + self.updates.len()
    }

    fn perform(&mut self, action: &Action) -> Option<Event> {
        match action {
            Action::ListDomains => {
                self.domain_calls += 1;
                let list =
                    self.domains.iter().map(|(n, i)| RegistrarDomain { name: n.clone(), id: *i }).collect();
                Some(Event::DomainsListed(Ok(list)))
            }
            Action::ListRecords { domain_id, host } => {
                self.list_calls += 1;
                if self.fail_list_records {
                    return Some(Event::RecordsListed(Err(ClientError::Transport)));
                }
                let recs = self
                    .records
                    .iter()
                    .filter(|(d, r)| d == domain_id && &r.host == host)
                    .map(|(_, r)| r.clone())
                    .collect();
                Some(Event::RecordsListed(Ok(recs)))
            }
            Action::CreateRecord { domain_id, host, data } => {
                if self.fail_writes {
                    return Some(Event::WriteDone(Err(ClientError::Decode)));
                }
                self.creates.push((*domain_id, host.clone(), data.clone()));
                let id = self.next_id;
                self.next_id += 1;
                self.add_record(*domain_id, id, host, data);
                Some(Event::WriteDone(Ok(())))
            }
            Action::UpdateRecord { domain_id, record_id, host, data } => {
                if self.fail_writes {
                    return Some(Event::WriteDone(Err(ClientError::Transport)));
                }
                self.updates.push((*domain_id, *record_id, host.clone(), data.clone()));
                for (_, r) in self.records.iter_mut() {
                    if r.id == *record_id {
                        r.data = data.clone();
                    }
                }
                Some(Event::WriteDone(Ok(())))
            }
            Action::Finished => None,
        }
    }
}

fn target(fqdn: &str, domain: &str, data: &str) -> Target {
    Target { fqdn: fqdn.to_string(), domain: domain.to_string(), data: data.to_string() }
}

fn drive(reg: &mut FakeRegistrar, targets: Vec<Target>) -> Vec<Outcome> {
    let mut run = Run::new(targets);
    let mut action = run.step(Event::Start);
    let mut steps = 0;
    while let Some(ev) = reg.perform(&action) {
        action = run.step(ev);
        steps += 1;
        assert!(steps < 1000);
    }
    run.outcomes().clone()
}

fn record(id: i64, host: &str, data: &str) -> DnsRecord {
    DnsRecord { id, host: host.to_string(), data: data.to_string() }
}

#[test]
fn current_record_needs_no_write() {
    assert!(plan_writes(&vec![record(5, "myhost", "10.0.0.5")], &"10.0.0.5".to_string()).is_empty());
    let mut reg = FakeRegistrar::new(&[("example.com", 1)]);
    reg.add_record(1, 5, "myhost", "10.0.0.5");
    let out = drive(&mut reg, vec![target("myhost.example.com", "example.com", "10.0.0.5")]);
    assert_eq!(out, vec![Outcome::AlreadyCurrent]);
    assert_eq!(reg.writes(), 0);
}

#[test]
fn stale_record_is_updated_once() {
    assert_eq!(
        plan_writes(&vec![record(5, "myhost", "10.0.0.5")], &"10.0.0.9".to_string()),
        vec![Write::Update { record_id: 5 }]
    );
    let mut reg = FakeRegistrar::new(&[("example.com", 1)]);
    reg.add_record(1, 5, "myhost", "10.0.0.5");
    let out = drive(&mut reg, vec![target("myhost.example.com", "example.com", "10.0.0.9")]);
    assert_eq!(out, vec![Outcome::Updated { count: 1 }]);
    assert_eq!(reg.updates, vec![(1, 5, "myhost".to_string(), "10.0.0.9".to_string())]);
    assert!(reg.creates.is_empty());
}

#[test]
fn missing_record_is_created_once() {
    assert_eq!(plan_writes(&vec![], &"10.0.0.9".to_string()), vec![Write::Create]);
    let mut reg = FakeRegistrar::new(&[("example.com", 1)]);
    let out = drive(&mut reg, vec![target("myhost.example.com", "example.com", "10.0.0.9")]);
    assert_eq!(out, vec![Outcome::Created]);
    assert_eq!(reg.creates, vec![(1, "myhost".to_string(), "10.0.0.9".to_string())]);
    assert!(reg.updates.is_empty());
}

#[test]
fn second_pass_writes_nothing() {
    let mut reg = FakeRegistrar::new(&[("example.com", 1)]);
    let t = || vec![target("myhost.example.com", "example.com", "10.0.0.9")];
    assert_eq!(drive(&mut reg, t()), vec![Outcome::Created]);
    assert_eq!(reg.writes(), 1);
    assert_eq!(drive(&mut reg, t()), vec![Outcome::AlreadyCurrent]);
    assert_eq!(reg.writes(), 1);
}

#[test]
fn every_stale_duplicate_is_updated() {
    let recs = vec![record(1, "h", "10.0.0.1"), record(2, "h", "10.0.0.9"), record(3, "h", "10.0.0.2")];
    assert_eq!(
        plan_writes(&recs, &"10.0.0.9".to_string()),
        vec![Write::Update { record_id: 1 }, Write::Update { record_id: 3 }]
    );
    let mut reg = FakeRegistrar::new(&[("example.com", 4)]);
    reg.add_record(4, 1, "h", "10.0.0.1");
    reg.add_record(4, 2, "h", "10.0.0.9");
    reg.add_record(4, 3, "h", "10.0.0.2");
    let out = drive(&mut reg, vec![target("h.example.com", "example.com", "10.0.0.9")]);
    assert_eq!(out, vec![Outcome::Updated { count: 2 }]);
    assert_eq!(reg.updates.len(), 2);
    assert_eq!(reg.updates[0].1, 1);
    assert_eq!(reg.updates[1].1, 3);
}

#[test]
fn unresolvable_domain_does_not_block_others() {
    let mut reg = FakeRegistrar::new(&[("example.com", 1)]);
    let out = drive(
        &mut reg,
        vec![
            target("myhost.unknown.net", "unknown.net", "10.0.0.9"),
            target("myhost.example.com", "example.com", "10.0.0.9"),
        ],
    );
    assert_eq!(
        out,
        vec![Outcome::Failed { cause: TargetError::DomainNotFound }, Outcome::Created]
    );
    assert_eq!(reg.domain_calls, 1);
    assert_eq!(reg.creates.len(), 1);
}

#[test]
fn domains_are_listed_once_per_run() {
    let mut reg = FakeRegistrar::new(&[("example.com", 1), ("other.org", 2)]);
    let out = drive(
        &mut reg,
        vec![
            target("a.example.com", "example.com", "10.0.0.1"),
            target("a.other.org", "other.org", "10.0.0.1"),
            target("a.co.example.com", "co.example.com", "10.0.0.1"),
        ],
    );
    assert_eq!(out, vec![Outcome::Created, Outcome::Created, Outcome::Created]);
    assert_eq!(reg.domain_calls, 1);
    assert_eq!(reg.creates[1], (2, "a".to_string(), "10.0.0.1".to_string()));
    assert_eq!(reg.creates[2], (1, "a.co".to_string(), "10.0.0.1".to_string()));
}

#[test]
fn failed_record_listing_skips_without_writing() {
    let mut reg = FakeRegistrar::new(&[("example.com", 1)]);
    reg.fail_list_records = true;
    let out = drive(&mut reg, vec![target("myhost.example.com", "example.com", "10.0.0.9")]);
    assert_eq!(out, vec![Outcome::Skipped { cause: ClientError::Transport }]);
    assert_eq!(reg.writes(), 0);
}

#[test]
fn failed_write_ends_only_that_target() {
    let mut reg = FakeRegistrar::new(&[("example.com", 1)]);
    reg.fail_writes = true;
    let out = drive(
        &mut reg,
        vec![
            target("a.example.com", "example.com", "10.0.0.9"),
            target("b.example.com", "example.com", "10.0.0.9"),
        ],
    );
    assert_eq!(
        out,
        vec![
            Outcome::Failed { cause: TargetError::Client(ClientError::Decode) },
            Outcome::Failed { cause: TargetError::Client(ClientError::Decode) },
        ]
    );
    assert_eq!(reg.list_calls, 2);
}

#[test]
fn failed_domain_listing_fails_the_target_and_retries() {
    let mut run = Run::new(vec![
        target("a.example.com", "example.com", "10.0.0.9"),
        target("b.example.com", "example.com", "10.0.0.9"),
    ]);
    assert!(matches!(run.step(Event::Start), Action::ListDomains));
    assert!(matches!(run.step(Event::DomainsListed(Err(ClientError::Transport))), Action::ListDomains));
    assert_eq!(run.outcomes(), &vec![Outcome::Failed { cause: TargetError::Client(ClientError::Transport) }]);
    let list = vec![RegistrarDomain { name: "example.com".to_string(), id: 3 }];
    match run.step(Event::DomainsListed(Ok(list))) {
        Action::ListRecords { domain_id, host } => {
            assert_eq!(domain_id, 3);
            assert_eq!(host, "b");
        }
        _ => panic!("expected a record listing"),
    }
}

#[test]
fn unexpected_event_repeats_pending_action() {
    let mut run = Run::new(vec![target("a.example.com", "example.com", "10.0.0.9")]);
    assert!(matches!(run.step(Event::Start), Action::ListDomains));
    assert!(matches!(run.step(Event::WriteDone(Ok(()))), Action::ListDomains));
    assert!(run.outcomes().is_empty());
}

#[test]
fn suffix_mismatch_fails_target() {
    let mut reg = FakeRegistrar::new(&[("ample.com", 1)]);
    let out = drive(&mut reg, vec![target("myhost.example.com", "example.com", "10.0.0.9")]);
    assert_eq!(out, vec![Outcome::Failed { cause: TargetError::SuffixMismatch }]);
}

#[test]
fn empty_run_finishes_at_once() {
    let mut run = Run::new(vec![]);
    assert!(matches!(run.step(Event::Start), Action::Finished));
    assert!(matches!(run.step(Event::Start), Action::Finished));
    assert!(run.outcomes().is_empty());
    assert!(run.targets().is_empty());
}
