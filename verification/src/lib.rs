//! Attribution of observed network flows to the security-group rule that
//! permitted them.
//!
//! Given a snapshot of the network (interfaces, address bindings and the
//! rules of each security group) and the lines of a flow log, the library
//! finds for each flow the rule that let it through and writes the findings
//! down as a sorted report without repeats.
//!
//! The crate is split by concern:
//!
//! * [`text`]: characters of a string, fields, decimal numbers, string order.
//! * [`cidr`]: IPv4 addresses, blocks and the containment test.
//! * [`aws`]: the topology index, its lookups and the rule resolver.
//! * [`report`]: the set of report lines, kept in order.
//! * [`flow`]: flow records, the port filter and the attribution driver.

pub mod aws;
pub mod cidr;
pub mod flow;
pub mod report;
pub mod text;
