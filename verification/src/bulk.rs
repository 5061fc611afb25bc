//! The bulk query engine's decision core: one query of a fixed kind per
//! name-server endpoint, each endpoint's session stepping from connection
//! through name construction to the query, every failure becoming one
//! outcome. The sessions themselves run outside the library on the
//! engine's pipeline.

use vstd::prelude::*;

use trust_dns_proto::rr::Name;

use crate::aggregate::Outcome;
use crate::ip::IpAddress;
use crate::ip::ip_to_string;
use crate::ip::spec_ip_text;
use crate::numtext::spec_decimal;
use crate::numtext::u64_to_string;

verus! {

/// One name server to query: an address and a port.
#[derive(Clone, Copy, PartialEq, Eq, Structural)]
pub struct Endpoint {
    pub address: IpAddress,
    pub port: u16,
}

/// The query the bulk engine issues against every endpoint: a whole zone
/// transfer, or the domain's security key records.
#[derive(Clone, Copy, PartialEq, Eq, Structural)]
pub enum QueryKind {
    ZoneTransfer,
    DnssecKeys,
}

/// The record-type label of a query kind, as the wire protocol names it.
pub open spec fn spec_query_kind_label(k: QueryKind) -> Seq<char> {
    match k {
        QueryKind::ZoneTransfer => "AXFR"@,
        QueryKind::DnssecKeys => "DNSKEY"@,
    }
}

/// Render a query kind's record-type label.
pub fn query_kind_label(k: QueryKind) -> (r: String)
    ensures
        r@ == spec_query_kind_label(k),
{
    match k {
        QueryKind::ZoneTransfer => String::from_str("AXFR"),
        QueryKind::DnssecKeys => String::from_str("DNSKEY"),
    }
}

/// The outcome message for an endpoint whose session could not be opened.
pub open spec fn spec_connect_failure(ep: Endpoint) -> Seq<char> {
    "Failed to create client for address: "@ + spec_ip_text(ep.address) + seq![':']
        + spec_decimal(ep.port as nat)
}

/// Render the connection-failure message for one endpoint.
pub fn connect_failure_message(ep: &Endpoint) -> (r: String)
    ensures
        r@ == spec_connect_failure(*ep),
{
    let mut s = String::from_str("Failed to create client for address: ");
    s.append(ip_to_string(&ep.address).as_str());
    s.append(":");
    s.append(u64_to_string(ep.port as u64).as_str());
    proof {
        reveal_strlit(":");
        assert(s@ =~= spec_connect_failure(*ep));
    }
    s
}

/// The outcome for an endpoint whose session could not be opened: one
/// failure, nothing aborted.
pub fn connect_failed_outcome(ep: &Endpoint) -> (r: Outcome)
    ensures
        r matches Outcome::Failure { message } && message@ == spec_connect_failure(*ep),
{
    Outcome::Failure { message: connect_failure_message(ep) }
}

/// The outcome message when the target domain is no usable query name.
pub open spec fn spec_name_failure(domain: Seq<char>) -> Seq<char> {
    "Failed to create name: "@ + domain
}

/// The outcome message for an endpoint whose query failed.
pub open spec fn spec_query_failure(k: QueryKind, domain: Seq<char>) -> Seq<char> {
    spec_query_kind_label(k) + " query failed: "@ + domain
}

/// The outcome for an endpoint whose query failed: one failure, nothing
/// aborted.
pub fn query_failed_outcome(k: QueryKind, domain: &str) -> (r: Outcome)
    ensures
        r matches Outcome::Failure { message } && message@ == spec_query_failure(k, domain@),
{
    let mut s = query_kind_label(k);
    s.append(" query failed: ");
    s.append(domain);
    proof {
        assert(s@ =~= spec_query_failure(k, domain@));
    }
    Outcome::Failure { message: s }
}

/// The wire-format domain name of trust_dns_proto, opaque here: the library
/// constructs it and hands it to the transport, never looking inside.
#[verifier::external_type_specification]
#[verifier::external_body]
pub struct ExName(Name);

/// Whether a string is a usable query name; what the domain-name parser
/// accepts depends on the string alone.
pub uninterp spec fn dns_name_ok(s: Seq<char>) -> bool;

/// Relies on trust_dns_proto's Name::from_str: it parses a domain name from
/// text, and succeeds or fails on the text alone.
#[verifier::external_body]
fn parse_domain_name(s: &str) -> (r: Option<Name>)
    ensures
        r is Some <==> dns_name_ok(s@),
{
    <Name as core::str::FromStr>::from_str(s).ok()
}

/// An endpoint's step after its session opened: the name to query, or the
/// outcome message when the target domain is no usable name.
pub enum EndpointStep {
    Query { name: Name },
    Fail { message: String },
}

/// Step an endpoint's session once it is connected: construct the query
/// name from the target domain, or fail this endpoint alone.
pub fn after_connect(domain: &str) -> (r: EndpointStep)
    ensures
        match r {
            EndpointStep::Query { .. } => dns_name_ok(domain@),
            EndpointStep::Fail { message } => !dns_name_ok(domain@) && message@
                == spec_name_failure(domain@),
        },
{
    match parse_domain_name(domain) {
        Some(name) => EndpointStep::Query { name },
        None => {
            let mut s = String::from_str("Failed to create name: ");
            s.append(domain);
            proof {
                assert(s@ =~= spec_name_failure(domain@));
            }
            EndpointStep::Fail { message: s }
        },
    }
}

} // verus!
