use sg_attribution::aws::{ReferencedGroupInfo, Root, Rule, SecurityGroupRule};
use sg_attribution::flow::{
    attribute, attribution, default_ports, filter_flows, parse_file, parse_files,
    port_of_interest, LogEntryStruct, RecordParseError,
};
use sg_attribution::report::Report;

fn rule(id: &str, cidr: Option<&str>, peer: Option<&str>) -> SecurityGroupRule {
    SecurityGroupRule {
        rule: Rule {
            security_group_rule_id: id.to_string(),
            group_id: "sg-1".to_string(),
            group_owner_id: "111122223333".to_string(),
            is_egress: false,
            ip_protocol: "tcp".to_string(),
            from_port: 0,
            to_port: 65535,
            cidr_ipv4: cidr.map(|c| c.to_string()),
            referenced_group_info: peer.map(|p| ReferencedGroupInfo {
                group_id: p.to_string(),
                user_id: "111122223333".to_string(),
            }),
            description: Some("test rule".to_string()),
            tags: Vec::new(),
        },
    }
}

fn groups(names: &[&str]) -> Vec<String> {
    names.iter().map(|g| g.to_string()).collect()
}

fn lines(text: &[&str]) -> Vec<String> {
    text.iter().map(|l| l.to_string()).collect()
}

fn entry(source_ip: &str, destination_ip: &str) -> LogEntryStruct {
    LogEntryStruct {
        source_ip: source_ip.to_string(),
        source_group: "web".to_string(),
        destination_group: "db".to_string(),
        destination_ip: destination_ip.to_string(),
        destination_port: 443,
        protocol: "tcp".to_string(),
    }
}

fn small_network() -> Root {
    let mut root = Root::new();
    root.iptosgs.insert("10.0.0.5".to_string(), groups(&["sg-1"]));
    root.security_groups.insert("sg-1".to_string(), vec![rule("r-1", Some("10.0.0.0/24"), None)]);
    root
}

fn larger_network() -> Root {
    let mut root = Root::new();
    root.iptosgs.insert("10.0.0.5".to_string(), groups(&["sg-b", "sg-a", "sg-none", "sg-c"]));
    root.iptosgs.insert("10.0.0.9".to_string(), groups(&["sg-web"]));
    root.security_groups.insert(
        "sg-a".to_string(),
        vec![rule("r-a1", Some("192.168.0.0/16"), None), rule("r-a2", Some("10.0.0.0/8"), None)],
    );
    root.security_groups.insert("sg-b".to_string(), vec![rule("r-b1", None, Some("sg-web"))]);
    root.security_groups.insert("sg-c".to_string(), vec![rule("r-c1", Some("172.16.0.0/12"), None)]);
    root
}

#[test]
fn record_from_a_line() {
    let record = LogEntryStruct::from_line("10.0.0.9 web 10.0.0.5 db 443 tcp").unwrap();
    assert_eq!(record.source_ip, "10.0.0.9");
    assert_eq!(record.source_group, "web");
    assert_eq!(record.destination_ip, "10.0.0.5");
    assert_eq!(record.destination_group, "db");
    assert_eq!(record.destination_port, 443);
    assert_eq!(record.protocol, "tcp");
}

#[test]
fn record_from_a_line_with_more_fields() {
    let record = LogEntryStruct::from_line("1.1.1.1 a 2.2.2.2 b 80 udp extra words").unwrap();
    assert_eq!(record.destination_port, 80);
    assert_eq!(record.protocol, "udp");
}

#[test]
fn record_with_labels_beyond_ascii() {
    let record = LogEntryStruct::from_line("1.1.1.1 café 2.2.2.2 büro 80 tcp").unwrap();
    assert_eq!(record.source_group, "café");
    assert_eq!(record.destination_ip, "2.2.2.2");
    assert_eq!(record.destination_group, "büro");
    assert_eq!(record.protocol, "tcp");
}

#[test]
fn record_with_an_empty_field() {
    let record = LogEntryStruct::from_line("1.1.1.1  2.2.2.2 b 80 tcp").unwrap();
    assert_eq!(record.source_group, "");
    assert_eq!(record.destination_ip, "2.2.2.2");
}

#[test]
fn line_with_too_few_fields() {
    for line in ["", "10.0.0.9", "10.0.0.9 web 10.0.0.5 db 443", "a b c d e"] {
        assert_eq!(
            LogEntryStruct::from_line(line).err(),
            Some(RecordParseError::TooFewFields),
            "{:?}",
            line
        );
    }
}

#[test]
fn line_with_a_port_that_is_no_number() {
    for line in [
        "10.0.0.9 web 10.0.0.5 db https tcp",
        "10.0.0.9 web 10.0.0.5 db  tcp",
        "10.0.0.9 web 10.0.0.5 db 443x tcp",
        "10.0.0.9 web 10.0.0.5 db 99999999999 tcp",
        "10.0.0.9 web 10.0.0.5  db 443 tcp",
    ] {
        assert_eq!(
            LogEntryStruct::from_line(line).err(),
            Some(RecordParseError::BadPort),
            "{:?}",
            line
        );
    }
}

#[test]
fn too_few_fields_is_found_before_a_bad_port() {
    assert_eq!(
        LogEntryStruct::from_line("a b c d port").err(),
        Some(RecordParseError::TooFewFields)
    );
}

#[test]
fn default_ports_of_interest() {
    assert_eq!(
        default_ports(),
        vec![
            80, 443, 53, 2020, 8080, 8181, 9091, 9100, 9253, 9256, 9620, 10249, 10250, 10256,
            30081, 30082, 30083, 30084, 31002, 32081, 32082, 32083, 61678
        ]
    );
}

#[test]
fn port_filter() {
    let ports = default_ports();
    assert!(port_of_interest(443, &ports));
    assert!(port_of_interest(80, &ports));
    assert!(port_of_interest(61678, &ports));
    assert!(port_of_interest(30084, &ports));
    assert!(!port_of_interest(9999, &ports));
    assert!(!port_of_interest(30085, &ports));
    assert!(!port_of_interest(0, &ports));
    assert!(!port_of_interest(-443, &ports));
    assert!(!port_of_interest(443, &Vec::new()));
    assert!(port_of_interest(9999, &vec![9999]));
}

#[test]
fn attribution_line_format() {
    assert_eq!(attribution("sg-1", "r-1", "web", "db"), "sg-1/r-1, web -> db");
    assert_eq!(attribution("", "", "", ""), "/,  -> ");
}

#[test]
fn flow_permitted_by_a_rule() {
    let root = small_network();
    let mut report = Report::new();
    entry("10.0.0.9", "10.0.0.5").parse_entry(&root, &mut report);
    assert_eq!(report.into_lines(), vec!["sg-1/r-1, web -> db"]);
}

#[test]
fn flow_permitted_by_no_rule() {
    let root = small_network();
    let mut report = Report::new();
    entry("10.0.1.9", "10.0.0.5").parse_entry(&root, &mut report);
    assert_eq!(report.len(), 0);
}

#[test]
fn flow_to_an_address_without_groups() {
    let root = small_network();
    let mut report = Report::new();
    report.insert("kept".to_string());
    entry("10.0.0.9", "10.0.0.6").parse_entry(&root, &mut report);
    assert_eq!(report.into_lines(), vec!["kept"]);
}

#[test]
fn flow_through_several_groups() {
    let root = larger_network();
    let mut report = Report::new();
    entry("10.0.0.9", "10.0.0.5").parse_entry(&root, &mut report);
    assert_eq!(report.into_lines(), vec!["sg-a/r-a2, web -> db", "sg-b/r-b1, web -> db"]);
}

#[test]
fn flow_from_a_source_without_groups() {
    let root = larger_network();
    let mut report = Report::new();
    entry("10.0.0.10", "10.0.0.5").parse_entry(&root, &mut report);
    assert_eq!(report.into_lines(), vec!["sg-a/r-a2, web -> db"]);
}

#[test]
fn flow_adds_to_the_report() {
    let root = small_network();
    let mut report = Report::new();
    report.insert("zz".to_string());
    report.insert("aa".to_string());
    entry("10.0.0.9", "10.0.0.5").parse_entry(&root, &mut report);
    entry("10.0.0.9", "10.0.0.5").parse_entry(&root, &mut report);
    assert_eq!(report.into_lines(), vec!["aa", "sg-1/r-1, web -> db", "zz"]);
}

#[test]
fn flows_of_a_log() {
    let log = lines(&[
        "10.0.0.9 web 10.0.0.5 db 443 tcp",
        "10.0.0.9 web 10.0.0.5 db 9999 tcp",
        "10.0.0.9 web 10.0.0.5 db",
        "10.0.0.9 web 10.0.0.5 db x tcp",
        "10.0.0.9 web 10.0.0.5 db 443 tcp",
        "10.0.0.9 api 10.0.0.5 db 80 tcp",
        "10.0.0.9 api 10.0.0.5 db 80 udp",
        "10.0.0.9 web 10.0.0.5 db 443 tcp",
    ]);
    let flows = filter_flows(&log, &default_ports());
    let seen: Vec<(String, i32, String)> = flows
        .iter()
        .map(|f| (f.source_group.clone(), f.destination_port, f.protocol.clone()))
        .collect();
    assert_eq!(
        seen,
        vec![
            ("web".to_string(), 443, "tcp".to_string()),
            ("api".to_string(), 80, "tcp".to_string()),
            ("api".to_string(), 80, "udp".to_string()),
        ]
    );
}

#[test]
fn flows_of_a_log_with_other_ports() {
    let log = lines(&["10.0.0.9 web 10.0.0.5 db 443 tcp", "10.0.0.9 web 10.0.0.5 db 9999 tcp"]);
    let flows = filter_flows(&log, &vec![9999]);
    assert_eq!(flows.len(), 1);
    assert_eq!(flows[0].destination_port, 9999);
    assert!(filter_flows(&log, &Vec::new()).is_empty());
    assert!(filter_flows(&Vec::new(), &default_ports()).is_empty());
}

#[test]
fn attributions_of_flows() {
    let root = larger_network();
    let flows = vec![
        entry("10.0.0.9", "10.0.0.5"),
        entry("10.0.0.9", "10.0.0.77"),
        entry("172.16.1.1", "10.0.0.5"),
        entry("10.0.0.9", "10.0.0.5"),
    ];
    let report = attribute(flows, &root);
    assert_eq!(
        report.into_lines(),
        vec!["sg-a/r-a2, web -> db", "sg-b/r-b1, web -> db", "sg-c/r-c1, web -> db"]
    );
    assert_eq!(attribute(Vec::new(), &root).len(), 0);
}

#[test]
fn end_to_end() {
    let mut root = small_network();
    root.interfaces.insert(
        "i-1".to_string(),
        sg_attribution::aws::Interface {
            interface_type: "interface".to_string(),
            security_groups: groups(&["sg-1"]),
            requester_id: "".to_string(),
            interface_name: "db".to_string(),
        },
    );
    root.ipto_interface.insert("10.0.0.5".to_string(), "i-1".to_string());
    let log = lines(&["10.0.0.9 web 10.0.0.5 db 443 tcp"]);
    assert_eq!(parse_file(&log, &root, &default_ports()), vec!["sg-1/r-1, web -> db"]);
}

#[test]
fn repeated_line_counts_once() {
    let root = small_network();
    let once = lines(&["10.0.0.9 web 10.0.0.5 db 443 tcp"]);
    let many = lines(&[
        "10.0.0.9 web 10.0.0.5 db 443 tcp",
        "10.0.0.9 web 10.0.0.5 db 443 tcp",
        "10.0.0.9 web 10.0.0.5 db 443 tcp",
        "10.0.0.9 web 10.0.0.5 db 443 tcp",
    ]);
    let ports = default_ports();
    assert_eq!(parse_file(&many, &root, &ports), parse_file(&once, &root, &ports));
    assert_eq!(parse_file(&many, &root, &ports), vec!["sg-1/r-1, web -> db"]);
}

#[test]
fn port_outside_the_list_gives_nothing() {
    let root = small_network();
    let log = lines(&["10.0.0.9 web 10.0.0.5 db 9999 tcp"]);
    assert_eq!(parse_file(&log, &root, &default_ports()), Vec::<String>::new());
    assert_eq!(parse_file(&log, &root, &vec![9999]), vec!["sg-1/r-1, web -> db"]);
}

#[test]
fn destination_without_groups_gives_nothing() {
    let root = small_network();
    let log = lines(&["10.0.0.9 web 10.0.0.77 db 443 tcp"]);
    assert_eq!(parse_file(&log, &root, &default_ports()), Vec::<String>::new());
}

#[test]
fn lines_that_are_no_records_are_dropped() {
    let root = small_network();
    let log = lines(&[
        "",
        "garbage",
        "10.0.0.9 web 10.0.0.5 db port tcp",
        "10.0.0.9 web 10.0.0.5 db 443 tcp",
        "10.0.0.9 web 10.0.0.5",
    ]);
    assert_eq!(parse_file(&log, &root, &default_ports()), vec!["sg-1/r-1, web -> db"]);
}

#[test]
fn empty_log_gives_empty_report() {
    let root = small_network();
    assert_eq!(parse_file(&Vec::new(), &root, &default_ports()), Vec::<String>::new());
}

#[test]
fn report_is_sorted_and_without_repeats() {
    let root = larger_network();
    let log = lines(&[
        "10.0.0.9 web 10.0.0.5 db 443 tcp",
        "172.16.5.5 vpn 10.0.0.5 db 80 tcp",
        "10.0.0.9 web 10.0.0.5 db 80 tcp",
        "10.1.1.1 api 10.0.0.5 db 53 udp",
        "10.0.0.9 web 10.0.0.5 db 443 tcp",
        "192.168.1.1 lan 10.0.0.5 db 8080 tcp",
    ]);
    assert_eq!(
        parse_file(&log, &root, &default_ports()),
        vec![
            "sg-a/r-a1, lan -> db",
            "sg-a/r-a2, api -> db",
            "sg-a/r-a2, web -> db",
            "sg-b/r-b1, web -> db",
            "sg-c/r-c1, vpn -> db",
        ]
    );
}

#[test]
fn report_does_not_depend_on_line_order() {
    let root = larger_network();
    let ports = default_ports();
    let forward = lines(&[
        "10.0.0.9 web 10.0.0.5 db 443 tcp",
        "172.16.5.5 vpn 10.0.0.5 db 80 tcp",
        "192.168.1.1 lan 10.0.0.5 db 8080 tcp",
    ]);
    let backward = lines(&[
        "192.168.1.1 lan 10.0.0.5 db 8080 tcp",
        "172.16.5.5 vpn 10.0.0.5 db 80 tcp",
        "10.0.0.9 web 10.0.0.5 db 443 tcp",
        "172.16.5.5 vpn 10.0.0.5 db 80 tcp",
    ]);
    assert_eq!(parse_file(&forward, &root, &ports), parse_file(&backward, &root, &ports));
}

#[test]
fn reports_for_several_logs() {
    let root = small_network();
    let logs = vec![
        lines(&["10.0.0.9 web 10.0.0.5 db 443 tcp"]),
        Vec::new(),
        lines(&["10.0.0.9 api 10.0.0.5 db 80 tcp", "10.0.0.9 web 10.0.0.5 db 9999 tcp"]),
    ];
    assert_eq!(
        parse_files(&logs, &root, &default_ports()),
        vec![
            vec!["sg-1/r-1, web -> db".to_string()],
            Vec::<String>::new(),
            vec!["sg-1/r-1, api -> db".to_string()],
        ]
    );
    assert_eq!(parse_files(&Vec::new(), &root, &default_ports()), Vec::<Vec<String>>::new());
}
