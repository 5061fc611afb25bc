use scrutiny::aggregate::Outcome;
use scrutiny::aggregate::aggregate;
use scrutiny::brute::BrutePlan;
use scrutiny::brute::ProbeOutcome;
use scrutiny::brute::make_fqdn;
use scrutiny::brute::plan_brute_force;
use scrutiny::brute::wildcard_notice;
use scrutiny::brute::wildcard_probe_name;
use scrutiny::budget::ConcurrencyBudget;
use scrutiny::budget::Throttle;
use scrutiny::bulk::Endpoint;
use scrutiny::bulk::EndpointStep;
use scrutiny::bulk::QueryKind;
use scrutiny::bulk::after_connect;
use scrutiny::bulk::connect_failed_outcome;
use scrutiny::bulk::connect_failure_message;
use scrutiny::bulk::query_failed_outcome;
use scrutiny::bulk::query_kind_label;
use scrutiny::ip::IpAddress;
use scrutiny::ip::Ipv4Address;
use scrutiny::pipeline::Pipeline;
use scrutiny::records::RecordData;
use scrutiny::records::ResourceRecord;
use scrutiny::records::display_rdata;

fn a_record(name: &str, a: u8, b: u8, c: u8, d: u8) -> ResourceRecord {
    ResourceRecord {
        name: String::from(name),
        record_type: String::from("A"),
        data: RecordData::A { address: Ipv4Address { a, b, c, d } },
    }
}

fn failure_message(outcome: &Outcome) -> &str {
    match outcome {
        Outcome::Failure { message } => message.as_str(),
        Outcome::Success { .. } => panic!("expected a failure outcome"),
    }
}

#[test]
fn brute_force_scenario_without_wildcard() {
    // domain example.test, wordlist ["www", "mail", "bogus"]; www and mail
    // resolve, bogus fails; concurrency 2
    let candidates = vec![
        String::from("www"),
        String::from("mail"),
        String::from("bogus"),
    ];
    let plan = plan_brute_force(ProbeOutcome::NoWildcard, candidates, 2);
    let mut pipeline = match plan {
        BrutePlan::Enumerate { pipeline } => pipeline,
        BrutePlan::Wildcard { .. } => panic!("no wildcard was probed"),
    };
    let domain = "example.test";

    assert!(pipeline.can_start());
    let first = pipeline.start();
    assert_eq!(pipeline.item(first).as_str(), "www");
    assert_eq!(make_fqdn(pipeline.item(first), domain), "www.example.test");

    assert!(pipeline.can_start());
    let second = pipeline.start();
    assert_eq!(pipeline.item(second).as_str(), "mail");

    // both slots of the concurrency budget are taken
    assert!(!pipeline.can_start());
    assert!(!pipeline.is_done());

    pipeline.complete(Outcome::Success {
        records: vec![a_record("www.example.test.", 10, 0, 0, 1)],
    });

    assert!(pipeline.can_start());
    let third = pipeline.start();
    assert_eq!(pipeline.item(third).as_str(), "bogus");

    pipeline.complete(Outcome::Success {
        records: vec![a_record("mail.example.test.", 10, 0, 0, 2)],
    });
    pipeline.complete(Outcome::Failure {
        message: String::from("error: no record found for bogus.example.test"),
    });

    assert!(pipeline.is_done());
    let (records, failures) = pipeline.into_results();
    assert_eq!(records.len(), 2);
    assert_eq!(display_rdata(&records[0].data), "10.0.0.1");
    assert_eq!(display_rdata(&records[1].data), "10.0.0.2");
    assert_eq!(failures.len(), 1);
    assert!(failures[0].contains("bogus"));
}

#[test]
fn brute_force_scenario_with_wildcard() {
    // the wildcard probe succeeds: the wordlist is ignored entirely and the
    // aggregate equals exactly the probe's record set
    let candidates = vec![
        String::from("www"),
        String::from("mail"),
        String::from("bogus"),
    ];
    let probe = ProbeOutcome::Records {
        records: vec![a_record("example.test.", 10, 0, 0, 9)],
    };
    let plan = plan_brute_force(probe, candidates, 2);
    match plan {
        BrutePlan::Wildcard { records } => {
            assert_eq!(records.len(), 1);
            assert_eq!(display_rdata(&records[0].data), "10.0.0.9");
        },
        BrutePlan::Enumerate { .. } => panic!("a wildcard domain must not be enumerated"),
    }
}

#[test]
fn pipeline_attempts_every_item_once() {
    let items = vec![
        String::from("one"),
        String::from("two"),
        String::from("three"),
        String::from("four"),
    ];
    let mut pipeline = Pipeline::new(items, 1);
    let mut attempted: Vec<String> = Vec::new();
    while !pipeline.is_done() {
        // with concurrency 1 exactly one item is in flight at a time
        assert!(pipeline.can_start());
        let i = pipeline.start();
        attempted.push(pipeline.item(i).clone());
        assert!(!pipeline.can_start());
        pipeline.complete(Outcome::Failure { message: String::from("timed out") });
    }
    assert_eq!(attempted, vec!["one", "two", "three", "four"]);
    let (records, failures) = pipeline.into_results();
    assert_eq!(records.len(), 0);
    assert_eq!(failures.len(), 4);
}

#[test]
fn concurrency_budget_caps_in_flight_slots() {
    let mut budget = ConcurrencyBudget::new(2);
    assert!(budget.try_acquire());
    assert!(budget.try_acquire());
    assert!(!budget.try_acquire());
    budget.release();
    assert!(budget.try_acquire());
}

#[test]
fn throttle_paces_grants_evenly() {
    // two grants per window of 1000 ticks: one start every 500 ticks
    let mut throttle = Throttle::new(2, 1000);
    assert!(throttle.try_acquire(0));
    assert!(!throttle.try_acquire(0));
    assert!(!throttle.try_acquire(499));
    assert!(throttle.try_acquire(500));
    assert!(!throttle.try_acquire(999));
    assert!(throttle.try_acquire(1000));
}

#[test]
fn throttle_grants_later_callers() {
    let mut throttle = Throttle::new(1, 10);
    assert!(throttle.try_acquire(3));
    assert!(!throttle.try_acquire(5));
    assert!(throttle.try_acquire(13));
}

#[test]
fn aggregate_partitions_successes_and_failures() {
    // three endpoints, one fails: the aggregate holds both answer sets and
    // exactly one failure line
    let outcomes = vec![
        Outcome::Success { records: vec![a_record("a.test.", 10, 0, 0, 1)] },
        Outcome::Failure { message: String::from("AXFR query failed: a.test") },
        Outcome::Success {
            records: vec![
                a_record("b.test.", 10, 0, 0, 2),
                a_record("c.test.", 10, 0, 0, 3),
            ],
        },
    ];
    let (records, failures) = aggregate(outcomes);
    assert_eq!(records.len(), 3);
    assert_eq!(display_rdata(&records[0].data), "10.0.0.1");
    assert_eq!(display_rdata(&records[1].data), "10.0.0.2");
    assert_eq!(display_rdata(&records[2].data), "10.0.0.3");
    assert_eq!(failures, vec![String::from("AXFR query failed: a.test")]);
}

#[test]
fn aggregate_of_only_failures_is_empty() {
    // every endpoint fails: the aggregate is empty, the run does not abort,
    // and one line is logged per endpoint
    let outcomes = vec![
        Outcome::Failure { message: String::from("first") },
        Outcome::Failure { message: String::from("second") },
        Outcome::Failure { message: String::from("third") },
    ];
    let (records, failures) = aggregate(outcomes);
    assert_eq!(records.len(), 0);
    assert_eq!(failures.len(), 3);
}

#[test]
fn wildcard_probe_name_shape() {
    let name = wildcard_probe_name("example.test");
    assert_eq!(name.len(), 12 + 1 + "example.test".len());
    assert!(name.ends_with(".example.test"));
    let label = &name[..12];
    assert!(label.chars().all(|c| c.is_ascii_alphanumeric()));
}

#[test]
fn wildcard_probe_names_differ_between_runs() {
    // twelve random alphanumeric characters virtually never repeat
    let first = wildcard_probe_name("example.test");
    let second = wildcard_probe_name("example.test");
    assert_ne!(first, second);
}

#[test]
fn wildcard_notice_lines() {
    let (first, second) = wildcard_notice();
    assert_eq!(first, "Wild card resolution is enabled on this domain");
    assert_eq!(second, "All domains will resolve to these ips");
}

#[test]
fn make_fqdn_joins_with_a_dot() {
    assert_eq!(make_fqdn("www", "example.test"), "www.example.test");
    assert_eq!(make_fqdn("", "example.test"), ".example.test");
}

#[test]
fn query_kind_labels() {
    assert_eq!(query_kind_label(QueryKind::ZoneTransfer), "AXFR");
    assert_eq!(query_kind_label(QueryKind::DnssecKeys), "DNSKEY");
}

#[test]
fn connect_failure_message_names_the_endpoint() {
    let ep = Endpoint {
        address: IpAddress::V4(Ipv4Address { a: 192, b: 0, c: 2, d: 1 }),
        port: 53,
    };
    assert_eq!(
        connect_failure_message(&ep),
        "Failed to create client for address: 192.0.2.1:53"
    );
    assert_eq!(
        failure_message(&connect_failed_outcome(&ep)),
        "Failed to create client for address: 192.0.2.1:53"
    );
}

#[test]
fn query_failure_message_names_kind_and_domain() {
    let outcome = query_failed_outcome(QueryKind::ZoneTransfer, "example.test");
    assert_eq!(failure_message(&outcome), "AXFR query failed: example.test");
    let outcome = query_failed_outcome(QueryKind::DnssecKeys, "example.test");
    assert_eq!(failure_message(&outcome), "DNSKEY query failed: example.test");
}

#[test]
fn after_connect_builds_the_query_name() {
    match after_connect("example.test") {
        EndpointStep::Query { .. } => {},
        EndpointStep::Fail { .. } => panic!("a plain domain is a usable name"),
    }
}

#[test]
fn after_connect_fails_one_endpoint_on_a_bad_name() {
    // one label longer than 63 bytes is no usable domain name
    let label = "a".repeat(70);
    let domain = format!("{}.example.test", label);
    match after_connect(&domain) {
        EndpointStep::Query { .. } => panic!("an over-long label must be refused"),
        EndpointStep::Fail { message } => {
            assert_eq!(message, format!("Failed to create name: {}", domain));
        },
    }
}
