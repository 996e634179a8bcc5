//! The topology index: interfaces, address bindings and security-group
//! rules, the lookups on them, and the search for the rule that permits
//! a source.

use crate::cidr::{containment, dotted_quad, parse_ipv4, CidrParseError, Ipv4Cidr};
use crate::text::same_text;
use vstd::hash_map::StringHashMap;
use vstd::prelude::*;
use vstd::string::StringExecFns;

verus! {

/// One elastic network interface.
#[derive(Debug, Clone)]
pub struct Interface {
    /// The kind of interface, as the snapshot names it.
    pub interface_type: String,
    /// The security groups attached to the interface.
    pub security_groups: Vec<String>,
    /// Who asked for the interface.
    pub requester_id: String,
    /// The name under which the interface is shown.
    pub interface_name: String,
}

/// The interfaces, by interface identifier.
pub struct Interfaces {
    pub interface_id: StringHashMap<Interface>,
}

/// The interface that owns each address, by address.
pub struct IptoInterface {
    pub iptointerface: StringHashMap<String>,
}

/// The security groups that protect each address, by address.
pub struct IptoSGs {
    pub iptosgs: StringHashMap<Vec<String>>,
}

/// The rules of each security group in their stored order, by group
/// identifier.
pub struct SecurityGroups {
    pub sgrules: StringHashMap<Vec<SecurityGroupRule>>,
}

/// One entry of a security group's rule list.
#[derive(Debug, Clone)]
pub struct SecurityGroupRule {
    pub rule: Rule,
}

/// A peer security group that a rule refers to.
#[derive(Debug, Clone)]
pub struct ReferencedGroupInfo {
    pub group_id: String,
    pub user_id: String,
}

/// One allow rule. It matches a source either by a block of addresses
/// (`cidr_ipv4`) or by a peer security group (`referenced_group_info`).
#[derive(Debug, Clone)]
pub struct Rule {
    pub security_group_rule_id: String,
    pub group_id: String,
    pub group_owner_id: String,
    pub is_egress: bool,
    pub ip_protocol: String,
    pub from_port: i64,
    pub to_port: i64,
    pub cidr_ipv4: Option<String>,
    pub referenced_group_info: Option<ReferencedGroupInfo>,
    pub description: Option<String>,
    /// The rule's tags, each as the text it was written with.
    pub tags: Vec<String>,
}

/// A snapshot of the network: the four tables of the topology index.
pub struct Root {
    pub interfaces: Interfaces,
    pub ipto_interface: IptoInterface,
    pub security_groups: SecurityGroups,
    pub iptosgs: IptoSGs,
}

impl View for Interfaces {
    type V = Map<Seq<char>, Interface>;

    open spec fn view(&self) -> Map<Seq<char>, Interface> {
        self.interface_id@
    }
}

impl View for IptoInterface {
    type V = Map<Seq<char>, String>;

    open spec fn view(&self) -> Map<Seq<char>, String> {
        self.iptointerface@
    }
}

impl View for IptoSGs {
    type V = Map<Seq<char>, Vec<String>>;

    open spec fn view(&self) -> Map<Seq<char>, Vec<String>> {
        self.iptosgs@
    }
}

impl View for SecurityGroups {
    type V = Map<Seq<char>, Vec<SecurityGroupRule>>;

    open spec fn view(&self) -> Map<Seq<char>, Vec<SecurityGroupRule>> {
        self.sgrules@
    }
}

/// What a table holds under `key`, if anything.
pub open spec fn lookup<V>(table: Map<Seq<char>, V>, key: Seq<char>) -> Option<V> {
    if table.contains_key(key) {
        Some(table[key])
    } else {
        None
    }
}

/// The identifier of the interface that owns the address `ip_addr`.
pub fn get_int_id_from_ip<'a>(ip_addr: &str, dat: &'a Root) -> (r: Option<&'a String>)
    ensures
        match r {
            Some(found) => lookup(dat.ipto_interface@, ip_addr@) == Some(*found),
            None => lookup(dat.ipto_interface@, ip_addr@) is None,
        },
{
    dat.ipto_interface.iptointerface.get(ip_addr)
}

/// The interface with the identifier `int_id`, and with it the groups
/// attached to it.
pub fn get_sgs_attached<'a>(int_id: &str, dat: &'a Root) -> (r: Option<&'a Interface>)
    ensures
        match r {
            Some(found) => lookup(dat.interfaces@, int_id@) == Some(*found),
            None => lookup(dat.interfaces@, int_id@) is None,
        },
{
    dat.interfaces.interface_id.get(int_id)
}

/// The security groups bound to the address `int_ip`.
pub fn get_sgs_on_ip<'a>(int_ip: &str, dat: &'a Root) -> (r: Option<&'a Vec<String>>)
    ensures
        match r {
            Some(found) => lookup(dat.iptosgs@, int_ip@) == Some(*found),
            None => lookup(dat.iptosgs@, int_ip@) is None,
        },
{
    dat.iptosgs.iptosgs.get(int_ip)
}

/// The rules of the security group `sg_id`, in their stored order.
pub fn get_rules_from_sg<'a>(sg_id: &str, dat: &'a Root) -> (r: Option<&'a Vec<SecurityGroupRule>>)
    ensures
        match r {
            Some(found) => lookup(dat.security_groups@, sg_id@) == Some(*found),
            None => lookup(dat.security_groups@, sg_id@) is None,
        },
{
    dat.security_groups.sgrules.get(sg_id)
}

/// Whether `list` holds the text `text`.
pub fn contains_text(list: &Vec<String>, text: &str) -> (r: bool)
    ensures
        r == list.deep_view().contains(text@),
{
    let mut i: usize = 0;
    while i < list.len()
        invariant
            i <= list.len(),
            forall|j: int| 0 <= j < i ==> list.deep_view()[j] != text@,
        decreases list.len() - i,
    {
        if same_text(list[i].as_str(), text) {
            assert(list.deep_view()[i as int] == text@);
            return true;
        }
        i += 1;
    }
    false
}

/// The names of the groups attached to a source, where they are known.
pub open spec fn group_names(groups: Option<&Vec<String>>) -> Option<Seq<Seq<char>>> {
    match groups {
        Some(list) => Some(list.deep_view()),
        None => None,
    }
}

/// Whether `rule` permits a source with the address `source_ip` and the
/// attached groups `source_groups`.
///
/// A rule with a block permits the sources whose address lies in the block;
/// a block or an address that cannot be read permits nothing. A rule
/// without a block that refers to a peer group permits the sources to which
/// that group is attached. A rule with neither permits nothing. The rule's
/// ports and protocol are not looked at.
pub open spec fn rule_permits(
    rule: Rule,
    source_ip: Seq<char>,
    source_groups: Option<Seq<Seq<char>>>,
) -> bool {
    match rule.cidr_ipv4 {
        Some(cidr) => containment(source_ip, cidr@) == Ok::<bool, CidrParseError>(true),
        None => match rule.referenced_group_info {
            Some(peer) => source_groups matches Some(names) && names.contains(peer.group_id@),
            None => false,
        },
    }
}

/// The identifier of the first of `rules` that permits the source, if any
/// does.
pub open spec fn first_permitting(
    rules: Seq<SecurityGroupRule>,
    source_ip: Seq<char>,
    source_groups: Option<Seq<Seq<char>>>,
) -> Option<Seq<char>>
    decreases rules.len(),
{
    if rules.len() == 0 {
        None
    } else if rule_permits(rules[0].rule, source_ip, source_groups) {
        Some(rules[0].rule.security_group_rule_id@)
    } else {
        first_permitting(rules.drop_first(), source_ip, source_groups)
    }
}

/// The identifier of the rule of group `sg_id` that permits the source:
/// the first one in the group's stored order, and none where the group is
/// unknown.
pub open spec fn permitting_rule(
    dat: &Root,
    sg_id: Seq<char>,
    source_ip: Seq<char>,
    source_groups: Option<Seq<Seq<char>>>,
) -> Option<Seq<char>> {
    match lookup(dat.security_groups@, sg_id) {
        Some(rules) => first_permitting(rules@, source_ip, source_groups),
        None => None,
    }
}

/// The first match wins: where rule `i` permits the source and no rule
/// before it does, the search gives the identifier of rule `i`.
pub proof fn lemma_first_match_wins(
    rules: Seq<SecurityGroupRule>,
    source_ip: Seq<char>,
    source_groups: Option<Seq<Seq<char>>>,
    i: int,
)
    requires
        0 <= i < rules.len(),
        rule_permits(rules[i].rule, source_ip, source_groups),
        forall|j: int| 0 <= j < i ==> !rule_permits(rules[j].rule, source_ip, source_groups),
    ensures
        first_permitting(rules, source_ip, source_groups) == Some(
            rules[i].rule.security_group_rule_id@,
        ),
    decreases i,
{
    if i > 0 {
        lemma_first_match_wins(rules.drop_first(), source_ip, source_groups, i - 1);
    }
}

/// The search finds nothing exactly when no rule permits the source.
pub proof fn lemma_no_match(
    rules: Seq<SecurityGroupRule>,
    source_ip: Seq<char>,
    source_groups: Option<Seq<Seq<char>>>,
)
    ensures
        first_permitting(rules, source_ip, source_groups) is None <==> forall|j: int|
            0 <= j < rules.len() ==> !rule_permits(#[trigger] rules[j].rule, source_ip, source_groups),
    decreases rules.len(),
{
    if rules.len() > 0 {
        let rest = rules.drop_first();
        lemma_no_match(rest, source_ip, source_groups);
        if !rule_permits(rules[0].rule, source_ip, source_groups) {
            if first_permitting(rest, source_ip, source_groups) is None {
                assert forall|j: int| 0 <= j < rules.len() implies !rule_permits(
                    #[trigger] rules[j].rule,
                    source_ip,
                    source_groups,
                ) by {
                    if j > 0 {
                        assert(rules[j] == rest[j - 1]);
                    }
                }
            } else {
                let j = choose|j: int|
                    0 <= j < rest.len() && rule_permits(
                        #[trigger] rest[j].rule,
                        source_ip,
                        source_groups,
                    );
                assert(rules[j + 1] == rest[j]);
            }
        }
    }
}

/// Finds the rule of the security group `sg_id` that permits a source with
/// the address `int_ip` and the attached groups `sgs_vec`. The rules are
/// tried in their stored order, and the first that permits decides.
pub fn ip_allowed_in_sg(
    int_ip: &str,
    sg_id: &str,
    dat: &Root,
    sgs_vec: Option<&Vec<String>>,
) -> (r: Option<String>)
    ensures
        match r {
            Some(id) => permitting_rule(dat, sg_id@, int_ip@, group_names(sgs_vec)) == Some(id@),
            None => permitting_rule(dat, sg_id@, int_ip@, group_names(sgs_vec)) is None,
        },
{
    let rules = match get_rules_from_sg(sg_id, dat) {
        Some(rules) => rules,
        None => {
            return None;
        },
    };
    let addr = parse_ipv4(int_ip);
    let ghost names = group_names(sgs_vec);
    let mut i: usize = 0;
    assert(rules@.skip(0) == rules@);
    while i < rules.len()
        invariant
            i <= rules.len(),
            lookup(dat.security_groups@, sg_id@) == Some(*rules),
            addr == dotted_quad(int_ip@),
            names == group_names(sgs_vec),
            first_permitting(rules@, int_ip@, names) == first_permitting(
                rules@.skip(i as int),
                int_ip@,
                names,
            ),
        decreases rules.len() - i,
    {
        let rule = &rules[i].rule;
        let permits = match &rule.cidr_ipv4 {
            Some(cidr) => match Ipv4Cidr::parse(cidr.as_str()) {
                Some(block) => match addr {
                    Some(a) => block.contains(a),
                    None => false,
                },
                None => false,
            },
            None => match &rule.referenced_group_info {
                Some(peer) => match sgs_vec {
                    Some(groups) => contains_text(groups, peer.group_id.as_str()),
                    None => false,
                },
                None => false,
            },
        };
        proof {
            assert(rules@.skip(i as int).drop_first() == rules@.skip(i + 1));
        }
        if permits {
            return Some(rule.security_group_rule_id.clone());
        }
        i += 1;
    }
    None
}

/// The kinds of interface that the classification tells apart.
#[derive(Clone, Copy, Debug, PartialEq, Eq, Structural)]
pub enum InterfaceKind {
    /// A plain interface: `interface` in the snapshot.
    Interface,
    /// A network load balancer: `network_load_balancer` in the snapshot.
    NetworkLoadBalancer,
    /// Any other kind.
    Other,
}

/// What stands behind an interface.
#[derive(Clone, Copy, Debug, PartialEq, Eq, Structural)]
pub enum InterfaceClass {
    /// A load balancer that the load-balancing service asked for.
    AwsElb,
    /// A network load balancer.
    AwsNlb,
    /// A compute instance.
    AwsEc2,
    /// None of these.
    Unknown,
}

/// The kind that the snapshot's text `label` names.
pub open spec fn kind_of(label: Seq<char>) -> InterfaceKind {
    if label == "interface"@ {
        InterfaceKind::Interface
    } else if label == "network_load_balancer"@ {
        InterfaceKind::NetworkLoadBalancer
    } else {
        InterfaceKind::Other
    }
}

/// The class of an interface of kind `kind` that `requester` asked for. A
/// plain interface of the load-balancing service is a load balancer; only
/// the other plain interfaces are compute instances.
pub open spec fn class_of(kind: InterfaceKind, requester: Seq<char>) -> InterfaceClass {
    if kind == InterfaceKind::Interface && requester == "aws-elb"@ {
        InterfaceClass::AwsElb
    } else if kind == InterfaceKind::NetworkLoadBalancer {
        InterfaceClass::AwsNlb
    } else if kind == InterfaceKind::Interface {
        InterfaceClass::AwsEc2
    } else {
        InterfaceClass::Unknown
    }
}

/// The name under which a class is written.
pub open spec fn class_label(class: InterfaceClass) -> Seq<char> {
    match class {
        InterfaceClass::AwsElb => "aws-elb"@,
        InterfaceClass::AwsNlb => "aws-nlb"@,
        InterfaceClass::AwsEc2 => "aws-ec2"@,
        InterfaceClass::Unknown => "unknown"@,
    }
}

impl InterfaceClass {
    /// The name under which the class is written.
    pub fn label(&self) -> (r: &'static str)
        ensures
            r@ == class_label(*self),
    {
        match self {
            InterfaceClass::AwsElb => "aws-elb",
            InterfaceClass::AwsNlb => "aws-nlb",
            InterfaceClass::AwsEc2 => "aws-ec2",
            InterfaceClass::Unknown => "unknown",
        }
    }
}

impl Interface {
    /// The kind of this interface.
    pub open spec fn spec_kind(&self) -> InterfaceKind {
        kind_of(self.interface_type@)
    }

    /// The class of this interface.
    pub open spec fn spec_classify(&self) -> InterfaceClass {
        class_of(self.spec_kind(), self.requester_id@)
    }

    /// The kind of this interface.
    #[verifier::when_used_as_spec(spec_kind)]
    pub fn kind(&self) -> (r: InterfaceKind)
        ensures
            r == self.spec_kind(),
    {
        if same_text(self.interface_type.as_str(), "interface") {
            InterfaceKind::Interface
        } else if same_text(self.interface_type.as_str(), "network_load_balancer") {
            InterfaceKind::NetworkLoadBalancer
        } else {
            InterfaceKind::Other
        }
    }

    /// The class of this interface.
    #[verifier::when_used_as_spec(spec_classify)]
    pub fn classify(&self) -> (r: InterfaceClass)
        ensures
            r == self.spec_classify(),
    {
        match self.kind() {
            InterfaceKind::Interface => if same_text(self.requester_id.as_str(), "aws-elb") {
                InterfaceClass::AwsElb
            } else {
                InterfaceClass::AwsEc2
            },
            InterfaceKind::NetworkLoadBalancer => InterfaceClass::AwsNlb,
            InterfaceKind::Other => InterfaceClass::Unknown,
        }
    }
}

/// The class of the interface with the identifier `int_id`; `None` where
/// the index holds no such interface.
pub fn get_int_type_from_id(int_id: &str, dat: &Root) -> (r: Option<InterfaceClass>)
    ensures
        r == match lookup(dat.interfaces@, int_id@) {
            Some(interface) => Some(interface.spec_classify()),
            None => None,
        },
{
    match get_sgs_attached(int_id, dat) {
        Some(interface) => Some(interface.classify()),
        None => None,
    }
}

/// The name under which the owner of the address `ip` is shown: the name
/// of the interface that the address is bound to, and `dontknow` where the
/// address is bound to no interface of the index.
pub open spec fn display_name(dat: &Root, ip: Seq<char>) -> Seq<char> {
    match lookup(dat.ipto_interface@, ip) {
        Some(id) => match lookup(dat.interfaces@, id@) {
            Some(interface) => interface.interface_name@,
            None => "dontknow"@,
        },
        None => "dontknow"@,
    }
}

/// The name under which the owner of the address `int_ip` is shown.
pub fn get_sourcegroup_from_iip(int_ip: &str, dat: &Root) -> (r: String)
    ensures
        r@ == display_name(dat, int_ip@),
{
    match get_int_id_from_ip(int_ip, dat) {
        Some(id) => match get_sgs_attached(id.as_str(), dat) {
            Some(interface) => interface.interface_name.clone(),
            None => String::from_str("dontknow"),
        },
        None => String::from_str("dontknow"),
    }
}

/// One end of a flow, or the group in between.
#[derive(Eq, Hash, PartialEq, Clone, Debug)]
pub enum TrafficNode {
    LoadBalancer(String),
    EC2(String),
    SecurityGroup(String),
    Other(String),
}

impl TrafficNode {
    /// Whether the node is of no known sort.
    pub fn is_other(self) -> (r: bool)
        ensures
            r == (self is Other),
    {
        match self {
            TrafficNode::Other(_) => true,
            TrafficNode::EC2(_) => false,
            TrafficNode::SecurityGroup(_) => false,
            TrafficNode::LoadBalancer(_) => false,
        }
    }
}

impl Interfaces {
    /// A table without interfaces.
    pub fn new() -> (r: Interfaces)
        ensures
            r@ == Map::<Seq<char>, Interface>::empty(),
    {
        Interfaces { interface_id: StringHashMap::new() }
    }

    /// Puts `interface` under the identifier `id`, in place of what stood
    /// there.
    pub fn insert(&mut self, id: String, interface: Interface)
        ensures
            final(self)@ == old(self)@.insert(id@, interface),
    {
        self.interface_id.insert(id, interface);
    }
}

impl IptoInterface {
    /// A table without addresses.
    pub fn new() -> (r: IptoInterface)
        ensures
            r@ == Map::<Seq<char>, String>::empty(),
    {
        IptoInterface { iptointerface: StringHashMap::new() }
    }

    /// Binds the address `ip` to the interface `interface_id`, in place of
    /// an earlier binding.
    pub fn insert(&mut self, ip: String, interface_id: String)
        ensures
            final(self)@ == old(self)@.insert(ip@, interface_id),
    {
        self.iptointerface.insert(ip, interface_id);
    }
}

impl IptoSGs {
    /// A table without addresses.
    pub fn new() -> (r: IptoSGs)
        ensures
            r@ == Map::<Seq<char>, Vec<String>>::empty(),
    {
        IptoSGs { iptosgs: StringHashMap::new() }
    }

    /// Binds the groups `groups` to the address `ip`, in place of an
    /// earlier binding.
    pub fn insert(&mut self, ip: String, groups: Vec<String>)
        ensures
            final(self)@ == old(self)@.insert(ip@, groups),
    {
        self.iptosgs.insert(ip, groups);
    }
}

impl SecurityGroups {
    /// A table without groups.
    pub fn new() -> (r: SecurityGroups)
        ensures
            r@ == Map::<Seq<char>, Vec<SecurityGroupRule>>::empty(),
    {
        SecurityGroups { sgrules: StringHashMap::new() }
    }

    /// Gives the group `group_id` the rules `rules`, in place of its
    /// earlier ones.
    pub fn insert(&mut self, group_id: String, rules: Vec<SecurityGroupRule>)
        ensures
            final(self)@ == old(self)@.insert(group_id@, rules),
    {
        self.sgrules.insert(group_id, rules);
    }
}

impl Root {
    /// A snapshot of an empty network.
    pub fn new() -> (r: Root)
        ensures
            r.interfaces@ == Map::<Seq<char>, Interface>::empty(),
            r.ipto_interface@ == Map::<Seq<char>, String>::empty(),
            r.security_groups@ == Map::<Seq<char>, Vec<SecurityGroupRule>>::empty(),
            r.iptosgs@ == Map::<Seq<char>, Vec<String>>::empty(),
    {
        Root {
            interfaces: Interfaces::new(),
            ipto_interface: IptoInterface::new(),
            security_groups: SecurityGroups::new(),
            iptosgs: IptoSGs::new(),
        }
    }
}

} // verus!
