use rust_npm_host::address::{Endpoint, HostV4};
use rust_npm_host::application::{Destination_Service, Message};
use rust_npm_host::measure::MeasureError;
use rust_npm_host::schedule::{
    collect_tick, record_result, CheckResult, FunctionalCheckSpec, Target, TargetReport,
};
use rust_npm_host::status::{row_for_result, status_ok_of};

fn ep(o0: u8, o1: u8, o2: u8, o3: u8, port: u16) -> Endpoint {
    Endpoint { host: HostV4 { o0, o1, o2, o3 }, port }
}

fn check(url: &str, selector: Option<&str>) -> FunctionalCheckSpec {
    FunctionalCheckSpec {
        url: url.to_string(),
        selector: selector.map(|s| s.to_string()),
        headless: true,
        session_endpoint: "http://localhost:4444".to_string(),
    }
}

#[test]
fn one_result_per_target_and_failures_stay_local() {
    let targets = vec![
        Target::Reach { endpoint: ep(10, 0, 0, 1, 80) },
        Target::Functional { check: check("https://www.example.com", Some("h1")) },
        Target::Reach { endpoint: ep(10, 0, 0, 2, 443) },
    ];
    let reports = vec![
        TargetReport::Reach { open: true },
        TargetReport::Functional {
            outcome: Err(MeasureError::ElementTimeout { timeout_ms: 30000 }),
            close_failed: false,
        },
        TargetReport::Reach { open: false },
    ];
    let results = collect_tick(targets, &reports, 1700000000);
    assert_eq!(results.len(), 3);
    match &results[0] {
        CheckResult::Reachability { endpoint, open, probed_at } => {
            assert_eq!(*endpoint, ep(10, 0, 0, 1, 80));
            assert!(*open);
            assert_eq!(*probed_at, 1700000000);
        }
        _ => panic!("first result should be a reachability record"),
    }
    match &results[1] {
        CheckResult::CheckError { check, kind, .. } => {
            assert_eq!(check.url, "https://www.example.com");
            assert_eq!(*kind, MeasureError::ElementTimeout { timeout_ms: 30000 });
        }
        _ => panic!("second result should be an error record"),
    }
    match &results[2] {
        CheckResult::Reachability { endpoint, open, .. } => {
            assert_eq!(*endpoint, ep(10, 0, 0, 2, 443));
            assert!(!*open);
        }
        _ => panic!("third result should be a reachability record"),
    }
}

#[test]
fn successful_measurement_becomes_a_duration_record() {
    let r = record_result(
        Target::Functional { check: check("https://www.example.com", None) },
        TargetReport::Functional { outcome: Ok(321), close_failed: true },
        7,
    );
    match r {
        CheckResult::FunctionalTime { duration_ms, probed_at, close_failed, .. } => {
            assert_eq!(duration_ms, 321);
            assert_eq!(probed_at, 7);
            assert!(close_failed);
        }
        _ => panic!("expected a functional-time record"),
    }
}

#[test]
fn status_rows_reflect_health() {
    let open = record_result(
        Target::Reach { endpoint: ep(8, 8, 8, 8, 53) },
        TargetReport::Reach { open: true },
        1,
    );
    let closed = record_result(
        Target::Reach { endpoint: ep(8, 8, 8, 8, 54) },
        TargetReport::Reach { open: false },
        1,
    );
    assert!(status_ok_of(&open));
    assert!(!status_ok_of(&closed));
    let row = row_for_result("agent".to_string(), 123, &open);
    assert_eq!(row.id, 0);
    assert_eq!(row.event_time_ms, 123);
    assert_eq!(row.agent_name, "agent");
    assert!(row.status_ok);
    assert!(row.object_data.is_none());
}

#[test]
fn destination_service_update_sets_the_name() {
    let mut form = Destination_Service { destination_service_name: String::new() };
    form.update(Message::add_destination_service);
    assert_eq!(form.destination_service_name, "New String?");
}
