use sg_attribution::aws::{
    contains_text, get_int_id_from_ip, get_int_type_from_id, get_rules_from_sg, get_sgs_attached,
    get_sgs_on_ip, get_sourcegroup_from_iip, ip_allowed_in_sg, Interface, InterfaceClass,
    InterfaceKind, ReferencedGroupInfo, Root, Rule, SecurityGroupRule, TrafficNode,
};

fn interface(kind: &str, requester: &str, name: &str, groups: &[&str]) -> Interface {
    Interface {
        interface_type: kind.to_string(),
        security_groups: groups.iter().map(|g| g.to_string()).collect(),
        requester_id: requester.to_string(),
        interface_name: name.to_string(),
    }
}

fn rule(id: &str, cidr: Option<&str>, peer: Option<&str>) -> SecurityGroupRule {
    SecurityGroupRule {
        rule: Rule {
            security_group_rule_id: id.to_string(),
            group_id: "sg-1".to_string(),
            group_owner_id: "111122223333".to_string(),
            is_egress: false,
            ip_protocol: "tcp".to_string(),
            from_port: 443,
            to_port: 443,
            cidr_ipv4: cidr.map(|c| c.to_string()),
            referenced_group_info: peer.map(|p| ReferencedGroupInfo {
                group_id: p.to_string(),
                user_id: "111122223333".to_string(),
            }),
            description: None,
            tags: Vec::new(),
        },
    }
}

fn groups(names: &[&str]) -> Vec<String> {
    names.iter().map(|g| g.to_string()).collect()
}

fn sample() -> Root {
    let mut root = Root::new();
    root.interfaces.insert("eni-1".to_string(), interface("interface", "amazon-rds", "db", &["sg-1"]));
    root.interfaces.insert("eni-2".to_string(), interface("interface", "aws-elb", "lb", &["sg-2"]));
    root.ipto_interface.insert("10.0.0.5".to_string(), "eni-1".to_string());
    root.ipto_interface.insert("10.0.0.6".to_string(), "eni-2".to_string());
    root.ipto_interface.insert("10.0.0.7".to_string(), "eni-gone".to_string());
    root.iptosgs.insert("10.0.0.5".to_string(), groups(&["sg-1"]));
    root.iptosgs.insert("10.0.0.9".to_string(), groups(&["sg-web", "sg-extra"]));
    root.security_groups.insert(
        "sg-1".to_string(),
        vec![rule("r-cidr", Some("10.0.0.0/24"), None), rule("r-peer", None, Some("sg-web"))],
    );
    root
}

#[test]
fn lookup_of_interface_by_address() {
    let root = sample();
    assert_eq!(get_int_id_from_ip("10.0.0.5", &root), Some(&"eni-1".to_string()));
    assert_eq!(get_int_id_from_ip("10.0.0.6", &root), Some(&"eni-2".to_string()));
    assert_eq!(get_int_id_from_ip("10.0.0.8", &root), None);
}

#[test]
fn lookup_of_interface_by_identifier() {
    let root = sample();
    let found = get_sgs_attached("eni-1", &root).unwrap();
    assert_eq!(found.interface_name, "db");
    assert_eq!(found.security_groups, vec!["sg-1".to_string()]);
    assert!(get_sgs_attached("eni-3", &root).is_none());
}

#[test]
fn lookup_of_groups_by_address() {
    let root = sample();
    assert_eq!(get_sgs_on_ip("10.0.0.9", &root), Some(&groups(&["sg-web", "sg-extra"])));
    assert_eq!(get_sgs_on_ip("10.0.0.6", &root), None);
}

#[test]
fn lookup_of_rules_by_group() {
    let root = sample();
    let rules = get_rules_from_sg("sg-1", &root).unwrap();
    assert_eq!(rules.len(), 2);
    assert_eq!(rules[0].rule.security_group_rule_id, "r-cidr");
    assert_eq!(rules[1].rule.security_group_rule_id, "r-peer");
    assert!(get_rules_from_sg("sg-2", &root).is_none());
}

#[test]
fn later_binding_replaces_earlier() {
    let mut root = sample();
    root.ipto_interface.insert("10.0.0.5".to_string(), "eni-2".to_string());
    assert_eq!(get_int_id_from_ip("10.0.0.5", &root), Some(&"eni-2".to_string()));
}

#[test]
fn empty_snapshot_knows_nothing() {
    let root = Root::new();
    assert!(get_int_id_from_ip("10.0.0.5", &root).is_none());
    assert!(get_sgs_attached("eni-1", &root).is_none());
    assert!(get_sgs_on_ip("10.0.0.5", &root).is_none());
    assert!(get_rules_from_sg("sg-1", &root).is_none());
    assert_eq!(ip_allowed_in_sg("10.0.0.5", "sg-1", &root, None), None);
}

#[test]
fn load_balancer_by_requester_comes_before_instance() {
    let lb = interface("interface", "aws-elb", "lb", &[]);
    assert_eq!(lb.kind(), InterfaceKind::Interface);
    assert_eq!(lb.classify(), InterfaceClass::AwsElb);
    let instance = interface("interface", "someone", "vm", &[]);
    assert_eq!(instance.kind(), InterfaceKind::Interface);
    assert_eq!(instance.classify(), InterfaceClass::AwsEc2);
}

#[test]
fn classes_of_the_other_kinds() {
    let nlb = interface("network_load_balancer", "aws-elb", "nlb", &[]);
    assert_eq!(nlb.kind(), InterfaceKind::NetworkLoadBalancer);
    assert_eq!(nlb.classify(), InterfaceClass::AwsNlb);
    let other = interface("nat_gateway", "aws-elb", "nat", &[]);
    assert_eq!(other.kind(), InterfaceKind::Other);
    assert_eq!(other.classify(), InterfaceClass::Unknown);
    let empty = interface("", "", "", &[]);
    assert_eq!(empty.classify(), InterfaceClass::Unknown);
}

#[test]
fn class_labels() {
    assert_eq!(InterfaceClass::AwsElb.label(), "aws-elb");
    assert_eq!(InterfaceClass::AwsNlb.label(), "aws-nlb");
    assert_eq!(InterfaceClass::AwsEc2.label(), "aws-ec2");
    assert_eq!(InterfaceClass::Unknown.label(), "unknown");
}

#[test]
fn class_by_identifier() {
    let root = sample();
    assert_eq!(get_int_type_from_id("eni-1", &root), Some(InterfaceClass::AwsEc2));
    assert_eq!(get_int_type_from_id("eni-2", &root), Some(InterfaceClass::AwsElb));
    assert_eq!(get_int_type_from_id("eni-3", &root), None);
}

#[test]
fn display_name_of_an_address() {
    let root = sample();
    assert_eq!(get_sourcegroup_from_iip("10.0.0.5", &root), "db");
    assert_eq!(get_sourcegroup_from_iip("10.0.0.6", &root), "lb");
}

#[test]
fn display_name_of_an_unknown_address() {
    let root = sample();
    assert_eq!(get_sourcegroup_from_iip("10.9.9.9", &root), "dontknow");
    assert_eq!(get_sourcegroup_from_iip("10.0.0.7", &root), "dontknow");
}

#[test]
fn first_matching_rule_wins() {
    let root = sample();
    let attached = groups(&["sg-web"]);
    assert_eq!(
        ip_allowed_in_sg("10.0.0.9", "sg-1", &root, Some(&attached)),
        Some("r-cidr".to_string())
    );
}

#[test]
fn first_matching_rule_wins_in_the_other_order() {
    let mut root = Root::new();
    root.security_groups.insert(
        "sg-1".to_string(),
        vec![rule("r-peer", None, Some("sg-web")), rule("r-cidr", Some("10.0.0.0/24"), None)],
    );
    let attached = groups(&["sg-web"]);
    assert_eq!(
        ip_allowed_in_sg("10.0.0.9", "sg-1", &root, Some(&attached)),
        Some("r-peer".to_string())
    );
    assert_eq!(ip_allowed_in_sg("10.0.0.9", "sg-1", &root, None), Some("r-cidr".to_string()));
}

#[test]
fn peer_group_rule_needs_the_group_attached() {
    let root = sample();
    let attached = groups(&["sg-other", "sg-web"]);
    assert_eq!(
        ip_allowed_in_sg("172.16.0.1", "sg-1", &root, Some(&attached)),
        Some("r-peer".to_string())
    );
    let unrelated = groups(&["sg-other"]);
    assert_eq!(ip_allowed_in_sg("172.16.0.1", "sg-1", &root, Some(&unrelated)), None);
    let none = groups(&[]);
    assert_eq!(ip_allowed_in_sg("172.16.0.1", "sg-1", &root, Some(&none)), None);
    assert_eq!(ip_allowed_in_sg("172.16.0.1", "sg-1", &root, None), None);
}

#[test]
fn unknown_group_permits_nothing() {
    let root = sample();
    assert_eq!(ip_allowed_in_sg("10.0.0.9", "sg-404", &root, None), None);
}

#[test]
fn group_without_rules_permits_nothing() {
    let mut root = Root::new();
    root.security_groups.insert("sg-1".to_string(), Vec::new());
    assert_eq!(ip_allowed_in_sg("10.0.0.9", "sg-1", &root, None), None);
}

#[test]
fn rule_without_condition_is_skipped() {
    let mut root = Root::new();
    root.security_groups.insert(
        "sg-1".to_string(),
        vec![rule("r-bare", None, None), rule("r-all", Some("0.0.0.0/0"), None)],
    );
    assert_eq!(ip_allowed_in_sg("10.0.0.9", "sg-1", &root, None), Some("r-all".to_string()));
}

#[test]
fn rule_with_malformed_block_is_skipped() {
    let mut root = Root::new();
    root.security_groups.insert(
        "sg-1".to_string(),
        vec![rule("r-bad", Some("10.0.0.0/99"), None), rule("r-good", Some("10.0.0.0/8"), None)],
    );
    assert_eq!(ip_allowed_in_sg("10.0.0.9", "sg-1", &root, None), Some("r-good".to_string()));
}

#[test]
fn malformed_source_address_matches_no_block() {
    let root = sample();
    assert_eq!(ip_allowed_in_sg("not-an-address", "sg-1", &root, None), None);
    let attached = groups(&["sg-web"]);
    assert_eq!(
        ip_allowed_in_sg("not-an-address", "sg-1", &root, Some(&attached)),
        Some("r-peer".to_string())
    );
}

#[test]
fn rule_with_block_is_not_tried_as_peer_rule() {
    let mut root = Root::new();
    root.security_groups.insert(
        "sg-1".to_string(),
        vec![rule("r-both", Some("192.168.0.0/16"), Some("sg-web"))],
    );
    let attached = groups(&["sg-web"]);
    assert_eq!(ip_allowed_in_sg("10.0.0.9", "sg-1", &root, Some(&attached)), None);
    assert_eq!(
        ip_allowed_in_sg("192.168.3.4", "sg-1", &root, Some(&attached)),
        Some("r-both".to_string())
    );
}

#[test]
fn rule_ports_and_protocol_are_not_looked_at() {
    let mut root = Root::new();
    let mut narrow = rule("r-ssh", Some("10.0.0.0/24"), None);
    narrow.rule.from_port = 22;
    narrow.rule.to_port = 22;
    narrow.rule.ip_protocol = "udp".to_string();
    root.security_groups.insert("sg-1".to_string(), vec![narrow]);
    assert_eq!(ip_allowed_in_sg("10.0.0.9", "sg-1", &root, None), Some("r-ssh".to_string()));
}

#[test]
fn list_holds_text() {
    let list = groups(&["sg-a", "sg-b"]);
    assert!(contains_text(&list, "sg-a"));
    assert!(contains_text(&list, "sg-b"));
    assert!(!contains_text(&list, "sg-c"));
    assert!(!contains_text(&list, "sg-"));
    assert!(!contains_text(&Vec::new(), "sg-a"));
}

#[test]
fn traffic_node_of_no_known_sort() {
    assert!(TrafficNode::Other("x".to_string()).is_other());
    assert!(!TrafficNode::EC2("x".to_string()).is_other());
    assert!(!TrafficNode::SecurityGroup("x".to_string()).is_other());
    assert!(!TrafficNode::LoadBalancer("x".to_string()).is_other());
}
