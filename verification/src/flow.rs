//! Flow records and the attribution driver: reading a record from a line,
//! the port filter, and the report of the rules that permitted the flows.

use crate::aws::{get_sgs_on_ip, group_names, ip_allowed_in_sg, lookup, permitting_rule, Root};
use crate::report::{lemma_sorted_listing_unique, strictly_sorted, Report};
use crate::text::{chars_of, read_signed, signed_decimal, split, split_ranges};
use vstd::hash_set::StringHashSet;
use vstd::prelude::*;
use vstd::string::{StrSliceExecFns, StringExecFns};

verus! {

/// Why a line is no flow record.
#[derive(Clone, Copy, Debug, PartialEq, Eq, Structural)]
pub enum RecordParseError {
    /// The line has fewer than six fields.
    TooFewFields,
    /// The fifth field is no number.
    BadPort,
}

/// One observed flow.
#[derive(Debug, Clone)]
pub struct LogEntryStruct {
    pub source_ip: String,
    /// The label that stands for the source in the report.
    pub source_group: String,
    /// The label that stands for the destination in the report.
    pub destination_group: String,
    pub destination_ip: String,
    pub destination_port: i32,
    pub protocol: String,
}

/// What a flow record says.
pub struct FlowRecord {
    pub source_ip: Seq<char>,
    pub source_group: Seq<char>,
    pub destination_ip: Seq<char>,
    pub destination_group: Seq<char>,
    pub destination_port: i32,
    pub protocol: Seq<char>,
}

impl View for LogEntryStruct {
    type V = FlowRecord;

    open spec fn view(&self) -> FlowRecord {
        FlowRecord {
            source_ip: self.source_ip@,
            source_group: self.source_group@,
            destination_ip: self.destination_ip@,
            destination_group: self.destination_group@,
            destination_port: self.destination_port,
            protocol: self.protocol@,
        }
    }
}

/// The record that a line writes. The line's fields are divided by single
/// spaces and stand in the order source address, source label, destination
/// address, destination label, destination port, protocol; what follows
/// the sixth field is not looked at.
pub open spec fn record_of_line(line: Seq<char>) -> Result<FlowRecord, RecordParseError> {
    let fields = split(line, ' ');
    if fields.len() < 6 {
        Err(RecordParseError::TooFewFields)
    } else {
        match signed_decimal(fields[4]) {
            Some(port) => Ok(
                FlowRecord {
                    source_ip: fields[0],
                    source_group: fields[1],
                    destination_ip: fields[2],
                    destination_group: fields[3],
                    destination_port: port,
                    protocol: fields[5],
                },
            ),
            None => Err(RecordParseError::BadPort),
        }
    }
}

/// The destination ports that are looked at where no other list is given.
pub open spec fn default_port_list() -> Seq<i32> {
    seq![
        80i32, 443, 53, 2020, 8080, 8181, 9091, 9100, 9253, 9256, 9620, 10249, 10250, 10256, 30081,
        30082, 30083, 30084, 31002, 32081, 32082, 32083, 61678,
    ]
}

/// The destination ports that are looked at where no other list is given.
pub fn default_ports() -> (r: Vec<i32>)
    ensures
        r@ == default_port_list(),
{
    let r: Vec<i32> = vec![
        80i32, 443, 53, 2020, 8080, 8181, 9091, 9100, 9253, 9256, 9620, 10249, 10250, 10256, 30081,
        30082, 30083, 30084, 31002, 32081, 32082, 32083, 61678,
    ];
    r
}

/// Whether `port` is one of `ports`.
pub fn port_of_interest(port: i32, ports: &Vec<i32>) -> (r: bool)
    ensures
        r == ports@.contains(port),
{
    let mut i: usize = 0;
    while i < ports.len()
        invariant
            i <= ports.len(),
            forall|j: int| 0 <= j < i ==> ports@[j] != port,
        decreases ports.len() - i,
    {
        if ports[i] == port {
            return true;
        }
        i += 1;
    }
    false
}

/// The report line for a flow from `source_label` to `destination_label`
/// that rule `rule` of group `group` permitted:
/// `group/rule, source_label -> destination_label`.
pub open spec fn attribution_line(
    group: Seq<char>,
    rule: Seq<char>,
    source_label: Seq<char>,
    destination_label: Seq<char>,
) -> Seq<char> {
    group + seq!['/'] + rule + seq![',', ' '] + source_label + seq![' ', '-', '>', ' ']
        + destination_label
}

/// Writes the report line for a flow that rule `rule` of group `group`
/// permitted.
pub fn attribution(group: &str, rule: &str, source_label: &str, destination_label: &str) -> (r:
    String)
    ensures
        r@ == attribution_line(group@, rule@, source_label@, destination_label@),
{
    proof {
        reveal_strlit("/");
        reveal_strlit(", ");
        reveal_strlit(" -> ");
    }
    let mut out = String::from_str(group);
    out.append("/");
    out.append(rule);
    out.append(", ");
    out.append(source_label);
    out.append(" -> ");
    out.append(destination_label);
    out
}

/// The groups bound to the address `ip`, by name, where the index knows
/// the address.
pub open spec fn groups_on(dat: &Root, ip: Seq<char>) -> Option<Seq<Seq<char>>> {
    match lookup(dat.iptosgs@, ip) {
        Some(groups) => Some(groups.deep_view()),
        None => None,
    }
}

/// The report line that group `group` at the destination gives for the
/// flow `entry`, where one of the group's rules permits the flow's source.
pub open spec fn group_attribution(entry: FlowRecord, dat: &Root, group: Seq<char>) -> Option<
    Seq<char>,
> {
    match permitting_rule(dat, group, entry.source_ip, groups_on(dat, entry.source_ip)) {
        Some(rule) => Some(
            attribution_line(group, rule, entry.source_group, entry.destination_group),
        ),
        None => None,
    }
}

/// The report lines that the first `n` of `groups` give for the flow
/// `entry`.
pub open spec fn attributions_upto(
    entry: FlowRecord,
    dat: &Root,
    groups: Seq<Seq<char>>,
    n: int,
) -> Set<Seq<char>> {
    Set::new(
        |line: Seq<char>|
            exists|i: int|
                0 <= i < n && i < groups.len() && #[trigger] group_attribution(entry, dat, groups[i])
                    == Some(line),
    )
}

/// The report lines for the flow `entry`: one for each group bound to the
/// destination address that has a rule permitting the source, and none
/// where no group is bound to the destination address.
pub open spec fn entry_attributions(entry: FlowRecord, dat: &Root) -> Set<Seq<char>> {
    match groups_on(dat, entry.destination_ip) {
        Some(groups) => attributions_upto(entry, dat, groups, groups.len() as int),
        None => Set::empty(),
    }
}

impl LogEntryStruct {
    /// Reads a flow record from a line.
    pub fn from_line(line: &str) -> (r: Result<LogEntryStruct, RecordParseError>)
        ensures
            match r {
                Ok(entry) => record_of_line(line@) == Ok::<FlowRecord, RecordParseError>(entry@),
                Err(e) => record_of_line(line@) == Err::<FlowRecord, RecordParseError>(e),
            },
    {
        let chars = chars_of(line);
        let fields = split_ranges(&chars, ' ');
        if fields.len() < 6 {
            return Err(RecordParseError::TooFewFields);
        }
        let port = match read_signed(&chars, fields[4].0, fields[4].1) {
            Some(port) => port,
            None => {
                return Err(RecordParseError::BadPort);
            },
        };
        Ok(
            LogEntryStruct {
                source_ip: String::from_str(line.substring_char(fields[0].0, fields[0].1)),
                source_group: String::from_str(line.substring_char(fields[1].0, fields[1].1)),
                destination_ip: String::from_str(line.substring_char(fields[2].0, fields[2].1)),
                destination_group: String::from_str(line.substring_char(fields[3].0, fields[3].1)),
                destination_port: port,
                protocol: String::from_str(line.substring_char(fields[5].0, fields[5].1)),
            },
        )
    }

    /// Adds to `st_final` the report lines for this flow: for each group
    /// bound to the destination address, the line of the rule that permits
    /// the source, where the group has one. A flow to an address that no
    /// group is bound to adds nothing.
    pub fn parse_entry(self, dat: &Root, st_final: &mut Report)
        ensures
            final(st_final)@ == old(st_final)@.union(entry_attributions(self@, dat)),
            groups_on(dat, self.destination_ip@) is None ==> final(st_final)@ == old(st_final)@,
    {
        let sgs = get_sgs_on_ip(self.destination_ip.as_str(), dat);
        let sgs_src = get_sgs_on_ip(self.source_ip.as_str(), dat);
        let sgs_vec = match sgs {
            Some(groups) => groups,
            None => {
                return ;
            },
        };
        let ghost entry = self@;
        let ghost names = sgs_vec.deep_view();
        let mut i: usize = 0;
        while i < sgs_vec.len()
            invariant
                i <= sgs_vec.len(),
                entry == self@,
                names == sgs_vec.deep_view(),
                groups_on(dat, entry.source_ip) == group_names(sgs_src),
                st_final@ == old(st_final)@.union(attributions_upto(entry, dat, names, i as int)),
            decreases sgs_vec.len() - i,
        {
            let sg_id = &sgs_vec[i];
            proof {
                assert(names[i as int] == sg_id@);
            }
            match ip_allowed_in_sg(self.source_ip.as_str(), sg_id.as_str(), dat, sgs_src) {
                Some(rule) => {
                    let line = attribution(
                        sg_id.as_str(),
                        rule.as_str(),
                        self.source_group.as_str(),
                        self.destination_group.as_str(),
                    );
                    assert(group_attribution(entry, dat, sg_id@) == Some(line@));
                    assert(old(st_final)@.union(
                        attributions_upto(entry, dat, names, i as int),
                    ).insert(line@) =~= old(st_final)@.union(
                        attributions_upto(entry, dat, names, i as int).insert(line@),
                    ));
                    st_final.insert(line);
                },
                None => {},
            }
            i += 1;
        }
    }
}

/// The record of a line that passes the port filter: the line is a record
/// and its destination port is one of `ports`.
pub open spec fn kept_record(line: Seq<char>, ports: Seq<i32>) -> Option<FlowRecord> {
    match record_of_line(line) {
        Ok(entry) => if ports.contains(entry.destination_port) {
            Some(entry)
        } else {
            None
        },
        Err(_) => None,
    }
}

/// The flows of a flow log: the records of its lines that pass the port
/// filter. A line that occurs more than once counts where it occurs first,
/// and the flows stand in the order of those first occurrences.
pub open spec fn flows_of(lines: Seq<Seq<char>>, ports: Seq<i32>) -> Seq<FlowRecord>
    decreases lines.len(),
{
    if lines.len() == 0 {
        Seq::empty()
    } else {
        let earlier = lines.drop_last();
        if earlier.contains(lines.last()) {
            flows_of(earlier, ports)
        } else {
            match kept_record(lines.last(), ports) {
                Some(entry) => flows_of(earlier, ports).push(entry),
                None => flows_of(earlier, ports),
            }
        }
    }
}

/// What each of `flows` says, in order.
pub open spec fn records(flows: Seq<LogEntryStruct>) -> Seq<FlowRecord> {
    Seq::new(flows.len(), |i: int| flows[i]@)
}

/// Reads the flows out of the lines of a flow log. Each distinct line is
/// read once; a line that is no record, or whose destination port is not
/// one of `ports`, is dropped.
pub fn filter_flows(lines: &Vec<String>, ports: &Vec<i32>) -> (r: Vec<LogEntryStruct>)
    ensures
        records(r@) == flows_of(lines.deep_view(), ports@),
{
    let ghost all = lines.deep_view();
    let mut seen = StringHashSet::new();
    let mut flows: Vec<LogEntryStruct> = Vec::new();
    let mut i: usize = 0;
    proof {
        assert(records(flows@) =~= flows_of(all.take(0), ports@));
    }
    while i < lines.len()
        invariant
            i <= lines.len(),
            all == lines.deep_view(),
            seen@ == all.take(i as int).to_set(),
            records(flows@) == flows_of(all.take(i as int), ports@),
        decreases lines.len() - i,
    {
        let line = &lines[i];
        proof {
            assert(all.take(i + 1).drop_last() == all.take(i as int));
        }
        if seen.contains(line.as_str()) {
            assert(seen@.insert(line@) =~= seen@);
        } else {
            seen.insert(line.clone());
            match LogEntryStruct::from_line(line.as_str()) {
                Ok(entry) => {
                    if port_of_interest(entry.destination_port, ports) {
                        flows.push(entry);
                    }
                },
                Err(_) => {},
            }
        }
        i += 1;
    }
    assert(all.take(i as int) == all);
    flows
}

/// The report lines for a sequence of flows: every line that one of the
/// flows gives.
pub open spec fn flow_attributions(flows: Seq<FlowRecord>, dat: &Root) -> Set<Seq<char>> {
    Set::new(
        |out: Seq<char>|
            exists|i: int|
                0 <= i < flows.len() && #[trigger] entry_attributions(flows[i], dat).contains(out),
    )
}

/// One more flow adds its own report lines.
pub proof fn lemma_flow_attributions_push(flows: Seq<FlowRecord>, entry: FlowRecord, dat: &Root)
    ensures
        flow_attributions(flows.push(entry), dat) == flow_attributions(flows, dat).union(
            entry_attributions(entry, dat),
        ),
{
    let more = flows.push(entry);
    let joined = flow_attributions(flows, dat).union(entry_attributions(entry, dat));
    assert forall|out: Seq<char>| flow_attributions(more, dat).contains(out) implies joined.contains(
        out,
    ) by {
        let i = choose|i: int|
            0 <= i < more.len() && #[trigger] entry_attributions(more[i], dat).contains(out);
        if i < flows.len() {
            assert(entry_attributions(flows[i], dat).contains(out));
        }
    }
    assert forall|out: Seq<char>| joined.contains(out) implies flow_attributions(more, dat).contains(
        out,
    ) by {
        if flow_attributions(flows, dat).contains(out) {
            let i = choose|i: int|
                0 <= i < flows.len() && #[trigger] entry_attributions(flows[i], dat).contains(out);
            assert(entry_attributions(more[i], dat).contains(out));
        } else {
            assert(entry_attributions(more[flows.len() as int], dat).contains(out));
        }
    }
}

/// The report for a sequence of flows over the topology `dat`: for each
/// flow and each group bound to its destination address, the line of the
/// rule that permits the flow's source, where the group has one.
pub fn attribute(flows: Vec<LogEntryStruct>, dat: &Root) -> (r: Report)
    ensures
        r@ == flow_attributions(records(flows@), dat),
{
    let ghost all = records(flows@);
    let mut report = Report::new();
    proof {
        assert(flow_attributions(all.take(0), dat) =~= Set::<Seq<char>>::empty());
    }
    for entry in it: flows
        invariant
            all == records(it.seq()),
            report@ == flow_attributions(all.take(it.index() as int), dat),
    {
        proof {
            assert(all.take(it.index() + 1) == all.take(it.index() as int).push(entry@));
            lemma_flow_attributions_push(all.take(it.index() as int), entry@, dat);
        }
        entry.parse_entry(dat, &mut report);
    }
    assert(all.take(all.len() as int) == all);
    report
}

/// The report lines that one line of a flow log gives: those of its
/// record, where the line is a record and its destination port is one of
/// `ports`, and none otherwise.
pub open spec fn line_attributions(line: Seq<char>, dat: &Root, ports: Seq<i32>) -> Set<
    Seq<char>,
> {
    match kept_record(line, ports) {
        Some(entry) => entry_attributions(entry, dat),
        None => Set::empty(),
    }
}

/// The report for a flow log: every report line that one of its lines
/// gives.
pub open spec fn report_of(lines: Seq<Seq<char>>, dat: &Root, ports: Seq<i32>) -> Set<Seq<char>> {
    Set::new(
        |out: Seq<char>|
            exists|i: int|
                0 <= i < lines.len() && #[trigger] line_attributions(lines[i], dat, ports).contains(
                    out,
                ),
    )
}

/// Whether `listing` is the report for the flow log `lines`, written down:
/// every report line once, in the order of texts.
pub open spec fn is_report_listing(
    listing: Seq<Seq<char>>,
    lines: Seq<Seq<char>>,
    dat: &Root,
    ports: Seq<i32>,
) -> bool {
    strictly_sorted(listing) && listing.to_set() == report_of(lines, dat, ports)
}

/// One more line adds its own report lines to the report.
pub proof fn lemma_report_push(lines: Seq<Seq<char>>, line: Seq<char>, dat: &Root, ports: Seq<i32>)
    ensures
        report_of(lines.push(line), dat, ports) == report_of(lines, dat, ports).union(
            line_attributions(line, dat, ports),
        ),
{
    let more = lines.push(line);
    let joined = report_of(lines, dat, ports).union(line_attributions(line, dat, ports));
    assert forall|out: Seq<char>| report_of(more, dat, ports).contains(out) implies joined.contains(
        out,
    ) by {
        let i = choose|i: int|
            0 <= i < more.len() && #[trigger] line_attributions(more[i], dat, ports).contains(out);
        if i < lines.len() {
            assert(line_attributions(lines[i], dat, ports).contains(out));
        }
    }
    assert forall|out: Seq<char>| joined.contains(out) implies report_of(more, dat, ports).contains(
        out,
    ) by {
        if report_of(lines, dat, ports).contains(out) {
            let i = choose|i: int|
                0 <= i < lines.len() && #[trigger] line_attributions(lines[i], dat, ports).contains(
                    out,
                );
            assert(line_attributions(more[i], dat, ports).contains(out));
        } else {
            assert(line_attributions(more[lines.len() as int], dat, ports).contains(out));
        }
    }
}

/// The flows of a flow log give the log's report: reading each distinct
/// line once loses no report line.
pub proof fn lemma_flows_give_report(lines: Seq<Seq<char>>, dat: &Root, ports: Seq<i32>)
    ensures
        flow_attributions(flows_of(lines, ports), dat) == report_of(lines, dat, ports),
    decreases lines.len(),
{
    if lines.len() == 0 {
        assert(flow_attributions(flows_of(lines, ports), dat) =~= report_of(lines, dat, ports));
    } else {
        let earlier = lines.drop_last();
        let line = lines.last();
        assert(lines == earlier.push(line));
        lemma_flows_give_report(earlier, dat, ports);
        lemma_report_push(earlier, line, dat, ports);
        let so_far = report_of(earlier, dat, ports);
        if earlier.contains(line) {
            let j = choose|j: int| 0 <= j < earlier.len() && earlier[j] == line;
            assert forall|out: Seq<char>|
                line_attributions(line, dat, ports).contains(out) implies so_far.contains(out) by {
                assert(line_attributions(earlier[j], dat, ports).contains(out));
            }
        } else {
            match kept_record(line, ports) {
                Some(entry) => {
                    lemma_flow_attributions_push(flows_of(earlier, ports), entry, dat);
                },
                None => {
                    assert(so_far.union(line_attributions(line, dat, ports)) =~= so_far);
                },
            }
        }
    }
}

/// The report depends on which lines the flow log holds, not on how often
/// or in which order it holds them.
pub proof fn lemma_report_ignores_repeats(
    first: Seq<Seq<char>>,
    second: Seq<Seq<char>>,
    dat: &Root,
    ports: Seq<i32>,
)
    requires
        first.to_set() == second.to_set(),
    ensures
        report_of(first, dat, ports) == report_of(second, dat, ports),
{
    assert forall|out: Seq<char>| report_of(first, dat, ports).contains(out) implies report_of(
        second,
        dat,
        ports,
    ).contains(out) by {
        let i = choose|i: int|
            0 <= i < first.len() && #[trigger] line_attributions(first[i], dat, ports).contains(out);
        assert(second.to_set().contains(first[i]));
        let j = choose|j: int| 0 <= j < second.len() && second[j] == first[i];
        assert(line_attributions(second[j], dat, ports).contains(out));
    }
    assert forall|out: Seq<char>| report_of(second, dat, ports).contains(out) implies report_of(
        first,
        dat,
        ports,
    ).contains(out) by {
        let i = choose|i: int|
            0 <= i < second.len() && #[trigger] line_attributions(second[i], dat, ports).contains(
                out,
            );
        assert(first.to_set().contains(second[i]));
        let j = choose|j: int| 0 <= j < first.len() && first[j] == second[i];
        assert(line_attributions(first[j], dat, ports).contains(out));
    }
}

/// A line fed `n` times gives the report that it gives when fed once, and
/// the report is written down the same way.
pub proof fn lemma_repeated_line(
    line: Seq<char>,
    n: nat,
    dat: &Root,
    ports: Seq<i32>,
    many_listing: Seq<Seq<char>>,
    once_listing: Seq<Seq<char>>,
)
    requires
        n >= 1,
        is_report_listing(many_listing, Seq::new(n, |i: int| line), dat, ports),
        is_report_listing(once_listing, seq![line], dat, ports),
    ensures
        report_of(Seq::new(n, |i: int| line), dat, ports) == report_of(seq![line], dat, ports),
        many_listing == once_listing,
{
    let many = Seq::new(n, |i: int| line);
    let once = seq![line];
    assert(many.to_set() =~= once.to_set()) by {
        assert(many[0] == line);
        assert(once[0] == line);
    }
    lemma_report_ignores_repeats(many, once, dat, ports);
    lemma_sorted_listing_unique(many_listing, once_listing);
}

/// A line whose destination port is not one of `ports` gives no flow and
/// no report line, whatever the rules say.
pub proof fn lemma_port_filter(line: Seq<char>, dat: &Root, ports: Seq<i32>)
    requires
        record_of_line(line) matches Ok(entry) && !ports.contains(entry.destination_port),
    ensures
        flows_of(seq![line], ports) == Seq::<FlowRecord>::empty(),
        report_of(seq![line], dat, ports) == Set::<Seq<char>>::empty(),
{
    assert(flows_of(seq![line].drop_last(), ports) =~= Seq::<FlowRecord>::empty());
}

/// A flow to an address that no group is bound to gives no report line.
pub proof fn lemma_unbound_destination(entry: FlowRecord, dat: &Root)
    requires
        !dat.iptosgs@.contains_key(entry.destination_ip),
    ensures
        entry_attributions(entry, dat) == Set::<Seq<char>>::empty(),
{
}

/// The report for the flow log `lines` over the topology `dat`: the lines
/// of the rules that permitted the flows to the ports `ports`, each line
/// once, in the order of texts.
pub fn parse_file(lines: &Vec<String>, dat: &Root, ports: &Vec<i32>) -> (r: Vec<String>)
    ensures
        is_report_listing(r.deep_view(), lines.deep_view(), dat, ports@),
{
    let flows = filter_flows(lines, ports);
    let report = attribute(flows, dat);
    proof {
        lemma_flows_give_report(lines.deep_view(), dat, ports@);
    }
    report.into_lines()
}

/// The reports for several flow logs over one topology, one for each log
/// and in the order of the logs.
pub fn parse_files(files: &Vec<Vec<String>>, dat: &Root, ports: &Vec<i32>) -> (r: Vec<Vec<String>>)
    ensures
        r@.len() == files@.len(),
        forall|k: int|
            0 <= k < r@.len() ==> is_report_listing(
                (#[trigger] r@[k]).deep_view(),
                files@[k].deep_view(),
                dat,
                ports@,
            ),
{
    let mut r: Vec<Vec<String>> = Vec::new();
    let mut k: usize = 0;
    while k < files.len()
        invariant
            k <= files.len(),
            r@.len() == k,
            forall|j: int|
                0 <= j < k ==> is_report_listing(
                    (#[trigger] r@[j]).deep_view(),
                    files@[j].deep_view(),
                    dat,
                    ports@,
                ),
        decreases files.len() - k,
    {
        let report = parse_file(&files[k], dat, ports);
        r.push(report);
        k += 1;
    }
    r
}

} // verus!
