use rust_npm_host::address::{
    classify_line, collect_endpoints, parse_ipv4, parse_port, Endpoint, HostV4, LineOutcome,
};

fn ep(o0: u8, o1: u8, o2: u8, o3: u8, port: u16) -> Endpoint {
    Endpoint { host: HostV4 { o0, o1, o2, o3 }, port }
}

#[test]
fn valid_line_parses_exactly() {
    assert_eq!(
        classify_line(b"10.0.0.1:80"),
        LineOutcome::Added { endpoint: ep(10, 0, 0, 1, 80), defaulted: false }
    );
    assert_eq!(
        classify_line(b"192.168.1.1:65535"),
        LineOutcome::Added { endpoint: ep(192, 168, 1, 1, 65535), defaulted: false }
    );
    assert_eq!(
        classify_line(b"0.0.0.0:1"),
        LineOutcome::Added { endpoint: ep(0, 0, 0, 0, 1), defaulted: false }
    );
}

#[test]
fn whitespace_is_trimmed() {
    assert_eq!(
        classify_line(b"  10.0.0.1 : 80 \n"),
        LineOutcome::Added { endpoint: ep(10, 0, 0, 1, 80), defaulted: false }
    );
}

#[test]
fn port_zero_defaults_to_443() {
    assert_eq!(
        classify_line(b"10.0.0.2:0"),
        LineOutcome::Added { endpoint: ep(10, 0, 0, 2, 443), defaulted: true }
    );
}

#[test]
fn unparseable_port_defaults_to_443() {
    assert_eq!(
        classify_line(b"10.0.0.2:abc"),
        LineOutcome::Added { endpoint: ep(10, 0, 0, 2, 443), defaulted: true }
    );
    assert_eq!(
        classify_line(b"10.0.0.2:"),
        LineOutcome::Added { endpoint: ep(10, 0, 0, 2, 443), defaulted: true }
    );
    assert_eq!(
        classify_line(b"10.0.0.2:65536"),
        LineOutcome::Added { endpoint: ep(10, 0, 0, 2, 443), defaulted: true }
    );
}

#[test]
fn plus_prefixed_port_parses() {
    assert_eq!(
        classify_line(b"10.0.0.1:+80"),
        LineOutcome::Added { endpoint: ep(10, 0, 0, 1, 80), defaulted: false }
    );
}

#[test]
fn bad_hosts_are_rejected() {
    assert_eq!(classify_line(b"badhost:80"), LineOutcome::BadHost);
    assert_eq!(classify_line(b"300.0.0.1:80"), LineOutcome::BadHost);
    assert_eq!(classify_line(b"01.2.3.4:80"), LineOutcome::BadHost);
    assert_eq!(classify_line(b"1.2.3:80"), LineOutcome::BadHost);
    assert_eq!(classify_line(b"1.2.3.4.5:80"), LineOutcome::BadHost);
    assert_eq!(classify_line(b"1.2.3.:80"), LineOutcome::BadHost);
}

#[test]
fn bad_shapes_are_rejected() {
    assert_eq!(classify_line(b"10.0.0.1"), LineOutcome::BadFormat);
    assert_eq!(classify_line(b"10.0.0.1:80:90"), LineOutcome::BadFormat);
}

#[test]
fn terminators_end_input() {
    assert_eq!(classify_line(b""), LineOutcome::End);
    assert_eq!(classify_line(b"   "), LineOutcome::End);
    assert_eq!(classify_line(b"done"), LineOutcome::End);
    assert_eq!(classify_line(b"DoNe"), LineOutcome::End);
}

#[test]
fn parse_ipv4_values() {
    assert_eq!(parse_ipv4(b"255.255.255.255"), Some(HostV4 { o0: 255, o1: 255, o2: 255, o3: 255 }));
    assert_eq!(parse_ipv4(b"256.0.0.1"), None);
    assert_eq!(parse_ipv4(b"0.0.0.00"), None);
    assert_eq!(parse_ipv4(b"1.2.3.4"), Some(HostV4 { o0: 1, o1: 2, o2: 3, o3: 4 }));
}

#[test]
fn parse_port_values() {
    assert_eq!(parse_port(b"443"), Some(443));
    assert_eq!(parse_port(b"0"), Some(0));
    assert_eq!(parse_port(b"00080"), Some(80));
    assert_eq!(parse_port(b"65535"), Some(65535));
    assert_eq!(parse_port(b"65536"), None);
    assert_eq!(parse_port(b"+"), None);
    assert_eq!(parse_port(b""), None);
    assert_eq!(parse_port(b"8 0"), None);
}

#[test]
fn session_scenario_two_endpoints_one_error() {
    let lines: Vec<Vec<u8>> = vec![
        b"10.0.0.1:80".to_vec(),
        b"badhost:80".to_vec(),
        b"10.0.0.2:0".to_vec(),
        b"done".to_vec(),
        b"10.9.9.9:1".to_vec(),
    ];
    let r = collect_endpoints(&lines);
    assert_eq!(r.endpoints, vec![ep(10, 0, 0, 1, 80), ep(10, 0, 0, 2, 443)]);
    assert_eq!(r.parse_errors, 1);
    assert_eq!(r.defaulted, 1);
    assert!(r.ended);
}

#[test]
fn session_without_terminator() {
    let lines: Vec<Vec<u8>> = vec![b"10.0.0.1:80".to_vec()];
    let r = collect_endpoints(&lines);
    assert_eq!(r.endpoints, vec![ep(10, 0, 0, 1, 80)]);
    assert_eq!(r.parse_errors, 0);
    assert!(!r.ended);
}
