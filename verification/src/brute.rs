//! The brute-force strategy's decision core: build the wildcard probe name
//! from a random label, and turn the probe's outcome into a plan — return
//! the wildcard record set untouched, or enumerate the whole wordlist
//! through a fresh bounded pipeline.

use vstd::prelude::*;

use rand::Rng;

use crate::pipeline::Pipeline;
use crate::records::ResourceRecord;

verus! {

/// True when the character is an unaccented letter or a digit.
pub open spec fn is_alphanumeric_char(c: char) -> bool {
    ('0' <= c && c <= '9') || ('a' <= c && c <= 'z') || ('A' <= c && c <= 'Z')
}

/// Relies on rand's thread-local generator sampling the alphanumeric
/// distribution: each sampled byte is an unaccented letter or a digit.
#[verifier::external_body]
fn random_label() -> (r: String)
    ensures
        r@.len() == 12,
        forall|i: int| 0 <= i < r@.len() ==> is_alphanumeric_char(#[trigger] r@[i]),
{
    rand::thread_rng().sample_iter(&rand::distributions::Alphanumeric).take(12).map(
        char::from,
    ).collect()
}

/// The fully qualified name of a candidate under the target domain.
pub open spec fn spec_fqdn(prefix: Seq<char>, domain: Seq<char>) -> Seq<char> {
    prefix + seq!['.'] + domain
}

/// Join a candidate prefix and the target domain into one query name.
pub fn make_fqdn(prefix: &str, domain: &str) -> (r: String)
    ensures
        r@ == spec_fqdn(prefix@, domain@),
{
    let mut s = prefix.to_owned();
    s.append(".");
    s.append(domain);
    proof {
        reveal_strlit(".");
        assert(s@ =~= spec_fqdn(prefix@, domain@));
    }
    s
}

/// The name for the wildcard probe: a twelve-character random alphanumeric
/// label, not expected to exist, under the target domain.
pub fn wildcard_probe_name(domain: &str) -> (r: String)
    ensures
        exists|label: Seq<char>|
            #![auto]
            label.len() == 12 && (forall|i: int|
                0 <= i < label.len() ==> is_alphanumeric_char(#[trigger] label[i])) && r@
                == spec_fqdn(label, domain@),
{
    let label = random_label();
    let ghost l = label@;
    let r = make_fqdn(label.as_str(), domain);
    proof {
        assert(r@ == spec_fqdn(l, domain@));
    }
    r
}

/// What the wildcard probe found: the record set every name resolves to, or
/// nothing — any resolver failure, a missing name included, means the
/// domain is not wildcard-configured.
pub enum ProbeOutcome {
    Records { records: Vec<ResourceRecord> },
    NoWildcard,
}

/// The brute-force plan: the wildcard record set as the whole result, or an
/// enumeration pipeline over the wordlist.
pub enum BrutePlan {
    Wildcard { records: Vec<ResourceRecord> },
    Enumerate { pipeline: Pipeline<String> },
}

/// Decide the brute-force run from the probe's outcome. A wildcard-
/// configured domain short-circuits the run entirely: the result is exactly
/// the probe's record set, and no candidate of the wordlist is ever
/// started. Otherwise every candidate goes into a fresh pipeline bounded by
/// the run's concurrency.
pub fn plan_brute_force(probe: ProbeOutcome, candidates: Vec<String>, concurrency: usize) -> (r:
    BrutePlan)
    requires
        concurrency >= 1,
    ensures
        match r {
            BrutePlan::Wildcard { records } => probe == (ProbeOutcome::Records { records }),
            BrutePlan::Enumerate { pipeline } => {
                &&& probe is NoWildcard
                &&& pipeline.wf()
                &&& pipeline.items_seq() == candidates@
                &&& pipeline.started() == 0
                &&& pipeline.in_flight() == 0
                &&& pipeline.cap() == concurrency as int
                &&& pipeline.records() == Seq::<ResourceRecord>::empty()
                &&& pipeline.failures() == Seq::<Seq<char>>::empty()
            },
        },
        r is Wildcard <==> probe is Records,
{
    match probe {
        ProbeOutcome::Records { records } => BrutePlan::Wildcard { records },
        ProbeOutcome::NoWildcard => BrutePlan::Enumerate {
            pipeline: Pipeline::new(candidates, concurrency),
        },
    }
}

/// The notice printed when the probe finds a wildcard-configured domain.
pub fn wildcard_notice() -> (r: (String, String))
    ensures
        r.0@ == "Wild card resolution is enabled on this domain"@,
        r.1@ == "All domains will resolve to these ips"@,
{
    (
        String::from_str("Wild card resolution is enabled on this domain"),
        String::from_str("All domains will resolve to these ips"),
    )
}

} // verus!
