use rust_npm_host::registry::{load_port_services, RegistryError};

const HEADER: &str = "Service Name,Port Number,Transport Protocol,Description,Assignee,Contact,Registration Date,Modification Date,Reference,Service Code,Unauthorized Use Reported,Assignment Notes";

fn rec_line(name: &str, port: &str, proto: &str) -> String {
    format!("{},{},{},desc,a,c,2020-01-01,2020-01-02,ref,sc,,notes", name, port, proto)
}

#[test]
fn range_record_goes_to_range_table_only() {
    let csv = format!(
        "{}\n{}\n{}\n",
        HEADER,
        rec_line("ftp-data-range", "20-25", "tcp"),
        rec_line("http", "80", "TCP"),
    );
    let tables = load_port_services(csv.as_bytes()).unwrap();
    assert!(tables.ranges.contains_key(b"20-25"));
    assert!(!tables.tcp.contains_key(b"20-25"));
    assert!(!tables.udp.contains_key(b"20-25"));
    assert!(tables.tcp.contains_key(b"80"));
    assert!(!tables.udp.contains_key(b"80"));
    assert!(!tables.ranges.contains_key(b"80"));
}

#[test]
fn transport_protocols_are_case_insensitive_and_filtered() {
    let csv = format!(
        "{}\n{}\n{}\n{}\n",
        HEADER,
        rec_line("domain", "53", "Udp"),
        rec_line("http", "80", "tCp"),
        rec_line("odd", "99", "sctp"),
    );
    let tables = load_port_services(csv.as_bytes()).unwrap();
    assert!(tables.udp.contains_key(b"53"));
    assert!(!tables.tcp.contains_key(b"53"));
    assert!(tables.tcp.contains_key(b"80"));
    assert!(!tables.tcp.contains_key(b"99"));
    assert!(!tables.udp.contains_key(b"99"));
    assert!(!tables.ranges.contains_key(b"99"));
}

#[test]
fn empty_name_or_port_is_skipped() {
    let csv = format!(
        "{}\n{}\n{}\n",
        HEADER,
        rec_line("", "81", "tcp"),
        rec_line("nameless", "", "tcp"),
    );
    let tables = load_port_services(csv.as_bytes()).unwrap();
    assert!(!tables.tcp.contains_key(b"81"));
    assert!(!tables.tcp.contains_key(b""));
}

#[test]
fn unparseable_plain_port_is_skipped() {
    let csv = format!("{}\n{}\n", HEADER, rec_line("big", "70000", "tcp"));
    let tables = load_port_services(csv.as_bytes()).unwrap();
    assert!(!tables.tcp.contains_key(b"70000"));
}

#[test]
fn lookup_returns_the_record_fields() {
    let csv = format!("{}\n{}\n", HEADER, rec_line("http", "80", "tcp"));
    let tables = load_port_services(csv.as_bytes()).unwrap();
    let rec = tables.tcp.get(b"80").unwrap();
    assert_eq!(rec.service_name, b"http".to_vec());
    assert_eq!(rec.port_number, b"80".to_vec());
    assert_eq!(rec.transport_protocol, b"tcp".to_vec());
    assert_eq!(rec.description, b"desc".to_vec());
    assert!(tables.tcp.get(b"81").is_none());
}

#[test]
fn duplicate_port_keeps_the_later_record() {
    let csv = format!(
        "{}\n{}\n{}\n",
        HEADER,
        rec_line("first", "80", "tcp"),
        rec_line("second", "80", "tcp"),
    );
    let tables = load_port_services(csv.as_bytes()).unwrap();
    let rec = tables.tcp.get(b"80").unwrap();
    assert_eq!(rec.service_name, b"second".to_vec());
}

#[test]
fn columns_are_located_by_heading_not_position() {
    let csv = "Port Number,Service Name,Transport Protocol,Description,Assignee,Contact,Registration Date,Modification Date,Reference,Service Code,Unauthorized Use Reported,Assignment Notes\n80,http,tcp,d,a,c,r1,m1,ref,sc,u,n\n";
    let tables = load_port_services(csv.as_bytes()).unwrap();
    let rec = tables.tcp.get(b"80").unwrap();
    assert_eq!(rec.service_name, b"http".to_vec());
    assert_eq!(rec.port_number, b"80".to_vec());
}

#[test]
fn quoted_fields_parse_as_csv() {
    let csv = format!(
        "{}\n\"svc,with,commas\",80,tcp,\"d\",a,c,r,m,ref,sc,u,n\n",
        HEADER
    );
    let tables = load_port_services(csv.as_bytes()).unwrap();
    let rec = tables.tcp.get(b"80").unwrap();
    assert_eq!(rec.service_name, b"svc,with,commas".to_vec());
}

#[test]
fn header_only_gives_empty_tables() {
    let csv = format!("{}\n", HEADER);
    let tables = load_port_services(csv.as_bytes()).unwrap();
    assert!(!tables.tcp.contains_key(b"80"));
}

#[test]
fn missing_column_is_an_error() {
    let csv = "Service Name,Port Number\nhttp,80\n";
    assert_eq!(
        load_port_services(csv.as_bytes()).unwrap_err(),
        RegistryError::MissingColumn
    );
}

#[test]
fn malformed_csv_is_an_error() {
    let csv = format!("{}\nonly,two\n", HEADER);
    assert_eq!(
        load_port_services(csv.as_bytes()).unwrap_err(),
        RegistryError::Csv
    );
}
