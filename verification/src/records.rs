//! Plain-value model of the resource records the engine collects, and their
//! textual rendering. The engine itself never inspects a record's payload;
//! only the rendering below reads it.

use vstd::prelude::*;

use base64::Engine;

use crate::ip::Ipv4Address;
use crate::ip::Ipv6Address;
use crate::ip::spec_ipv4_text;
use crate::ip::spec_ipv6_text;
use crate::ip::ipv4_to_string;
use crate::ip::ipv6_to_string;
use crate::numtext::i64_to_string;
use crate::numtext::spec_decimal;
use crate::numtext::spec_decimal_signed;
use crate::numtext::u64_to_string;

verus! {

/// One key-value parameter of a certification-authority record.
#[derive(Clone)]
pub struct CaaParameter {
    pub key: String,
    pub value: String,
}

/// The payload of a certification-authority record.
#[derive(Clone)]
pub enum CaaValue {
    Issuer { name: Option<String>, parameters: Vec<CaaParameter> },
    Url { url: String },
    Unknown { data: Vec<u8> },
}

/// The payload of a start-of-authority record.
#[derive(Clone)]
pub struct SoaData {
    pub mname: String,
    pub rname: String,
    pub serial: u32,
    pub refresh: i32,
    pub retry: i32,
    pub expire: i32,
    pub minimum: u32,
}

/// The payload of a security-extension record. Fields that only ever reach
/// the output as text, such as algorithm names, are carried as text.
#[derive(Clone)]
pub enum DnssecData {
    DnsKey {
        zone_key: bool,
        secure_entry_point: bool,
        revoke: bool,
        algorithm: String,
        public_key: Vec<u8>,
    },
    Ds { key_tag: u16, algorithm: String, digest_type: String, digest: Vec<u8> },
    Key {
        key_trust: String,
        key_usage: String,
        signatory: String,
        revoke: bool,
        protocol: String,
        algorithm: String,
        public_key: Vec<u8>,
    },
    Nsec { next_domain_name: String, type_bit_maps: Vec<String> },
    Other { text: String },
}

/// The type-specific payload of a resource record. Payloads this library
/// never reads beyond their prepared text are carried as that text.
#[derive(Clone)]
pub enum RecordData {
    A { address: Ipv4Address },
    Aaaa { address: Ipv6Address },
    Cname { name: String },
    Aname { name: String },
    Caa { tag: String, value: CaaValue },
    Mx { preference: u16, exchange: String },
    Naptr {
        order: u16,
        preference: u16,
        flags: Vec<u8>,
        services: Vec<u8>,
        regexp: Vec<u8>,
        replacement: String,
    },
    Null { data: Vec<u8> },
    Ns { name: String },
    Ptr { name: String },
    OpenPgpKey { public_key: Vec<u8> },
    Soa { soa: SoaData },
    Srv { priority: u16, weight: u16, port: u16, target: String },
    Txt { data: Vec<Vec<u8>> },
    Unknown { code: u16, data: Vec<u8> },
    Dnssec { data: DnssecData },
    Other { text: String },
}

/// One collected resource record: its owner name, its type's text, and its
/// payload.
#[derive(Clone)]
pub struct ResourceRecord {
    pub name: String,
    pub record_type: String,
    pub data: RecordData,
}

/// What an encoder made of a byte sequence; a function of the bytes alone.
pub uninterp spec fn base64_of(bytes: Seq<u8>) -> Seq<char>;

/// Relies on base64's standard-alphabet engine: what `encode` returns
/// depends on the input bytes alone.
#[verifier::external_body]
fn base64_encode(bytes: &[u8]) -> (r: String)
    ensures
        r@ == base64_of(bytes@),
        bytes@.len() == 0 ==> r@.len() == 0,
{
    base64::engine::general_purpose::STANDARD.encode(bytes)
}

/// Relies on std::str::from_utf8: it succeeds exactly on valid UTF-8 input
/// and yields its decoding.
#[verifier::external_body]
fn bytes_to_text(bytes: &[u8]) -> (r: Option<String>)
    ensures
        r is Some <==> vstd::utf8::valid_utf8(bytes@),
        r matches Some(s) ==> s@ == vstd::utf8::decode_utf8(bytes@),
{
    match std::str::from_utf8(bytes) {
        Ok(s) => Some(s.to_owned()),
        Err(_) => None,
    }
}

/// The display of opaque payload bytes: their text when they decode as
/// UTF-8, their encoding otherwise.
pub open spec fn text_or_base64(bytes: Seq<u8>) -> Seq<char> {
    if vstd::utf8::valid_utf8(bytes) {
        vstd::utf8::decode_utf8(bytes)
    } else {
        base64_of(bytes)
    }
}

/// Render opaque payload bytes.
pub fn bytes_display(bytes: &[u8]) -> (r: String)
    ensures
        r@ == text_or_base64(bytes@),
{
    match bytes_to_text(bytes) {
        Some(s) => s,
        None => base64_encode(bytes),
    }
}

/// The text of a truth value.
pub open spec fn spec_bool_text(b: bool) -> Seq<char> {
    if b {
        "true"@
    } else {
        "false"@
    }
}

/// Render a truth value.
pub fn bool_to_string(b: bool) -> (r: String)
    ensures
        r@ == spec_bool_text(b),
{
    if b {
        String::from_str("true")
    } else {
        String::from_str("false")
    }
}

/// The text of one certification-authority parameter.
pub open spec fn spec_caa_param_text(p: CaaParameter) -> Seq<char> {
    p.key@ + seq![':'] + p.value@
}

/// The space-separated text of the parameters from position `i` on.
pub open spec fn spec_caa_params_text(ps: Seq<CaaParameter>, i: int) -> Seq<char>
    decreases ps.len() - i when 0 <= i <= ps.len()
{
    if i >= ps.len() {
        seq![]
    } else if i + 1 == ps.len() {
        spec_caa_param_text(ps[i])
    } else {
        spec_caa_param_text(ps[i]) + seq![' '] + spec_caa_params_text(ps, i + 1)
    }
}

/// Render the parameters from position `i` on, space-separated.
fn caa_params_text(ps: &Vec<CaaParameter>, i: usize) -> (r: String)
    requires
        i <= ps@.len(),
    ensures
        r@ == spec_caa_params_text(ps@, i as int),
    decreases ps@.len() - i,
{
    if i >= ps.len() {
        String::new()
    } else {
        let p = &ps[i];
        let mut s = p.key.clone();
        s.append(":");
        s.append(p.value.as_str());
        if i + 1 < ps.len() {
            s.append(" ");
            s.append(caa_params_text(ps, i + 1).as_str());
        }
        proof {
            reveal_strlit(":");
            reveal_strlit(" ");
            assert(s@ =~= spec_caa_params_text(ps@, i as int));
        }
        s
    }
}

/// The comma-separated text of the character-string chunks from position
/// `i` on, each shown as text or as its encoding.
pub open spec fn spec_txt_chunks_text(ds: Seq<Vec<u8>>, i: int) -> Seq<char>
    decreases ds.len() - i when 0 <= i <= ds.len()
{
    if i >= ds.len() {
        seq![]
    } else if i + 1 == ds.len() {
        text_or_base64(ds[i]@)
    } else {
        text_or_base64(ds[i]@) + seq![','] + spec_txt_chunks_text(ds, i + 1)
    }
}

/// Render the character-string chunks from position `i` on.
fn txt_chunks_text(ds: &Vec<Vec<u8>>, i: usize) -> (r: String)
    requires
        i <= ds@.len(),
    ensures
        r@ == spec_txt_chunks_text(ds@, i as int),
    decreases ds@.len() - i,
{
    if i >= ds.len() {
        String::new()
    } else {
        let mut s = bytes_display(ds[i].as_slice());
        if i + 1 < ds.len() {
            s.append(",");
            s.append(txt_chunks_text(ds, i + 1).as_str());
        }
        proof {
            reveal_strlit(",");
            assert(s@ =~= spec_txt_chunks_text(ds@, i as int));
        }
        s
    }
}

/// The comma-separated text of the type names from position `i` on.
pub open spec fn spec_type_list_text(ts: Seq<String>, i: int) -> Seq<char>
    decreases ts.len() - i when 0 <= i <= ts.len()
{
    if i >= ts.len() {
        seq![]
    } else if i + 1 == ts.len() {
        ts[i]@
    } else {
        ts[i]@ + seq![','] + spec_type_list_text(ts, i + 1)
    }
}

/// Render the type names from position `i` on.
fn type_list_text(ts: &Vec<String>, i: usize) -> (r: String)
    requires
        i <= ts@.len(),
    ensures
        r@ == spec_type_list_text(ts@, i as int),
    decreases ts@.len() - i,
{
    if i >= ts.len() {
        String::new()
    } else {
        let mut s = ts[i].clone();
        if i + 1 < ts.len() {
            s.append(",");
            s.append(type_list_text(ts, i + 1).as_str());
        }
        proof {
            reveal_strlit(",");
            assert(s@ =~= spec_type_list_text(ts@, i as int));
        }
        s
    }
}

/// The text of a certification-authority payload: its issuer name and
/// parameters, its address, or its raw value's encoding.
pub open spec fn spec_display_caa_value(v: CaaValue) -> Seq<char> {
    match v {
        CaaValue::Issuer { name, parameters } => match name {
            Some(n) => if parameters@.len() == 0 {
                n@
            } else {
                n@ + seq![' '] + spec_caa_params_text(parameters@, 0)
            },
            None => spec_caa_params_text(parameters@, 0),
        },
        CaaValue::Url { url } => url@,
        CaaValue::Unknown { data } => base64_of(data@),
    }
}

/// Render a certification-authority payload.
pub fn display_caa_value(v: &CaaValue) -> (r: String)
    ensures
        r@ == spec_display_caa_value(*v),
{
    match v {
        CaaValue::Issuer { name, parameters } => match name {
            Some(n) => {
                if parameters.len() == 0 {
                    n.clone()
                } else {
                    let mut s = n.clone();
                    s.append(" ");
                    s.append(caa_params_text(parameters, 0).as_str());
                    proof {
                        reveal_strlit(" ");
                        assert(s@ =~= spec_display_caa_value(*v));
                    }
                    s
                }
            },
            None => caa_params_text(parameters, 0),
        },
        CaaValue::Url { url } => url.clone(),
        CaaValue::Unknown { data } => base64_encode(data.as_slice()),
    }
}

/// The text of a security-extension payload.
pub open spec fn spec_display_dnssec(d: DnssecData) -> Seq<char> {
    match d {
        DnssecData::DnsKey { zone_key, secure_entry_point, revoke, algorithm, public_key } => {
            spec_bool_text(zone_key) + seq![' '] + spec_bool_text(secure_entry_point) + seq![' ']
                + spec_bool_text(revoke) + seq![' '] + algorithm@ + seq![' '] + base64_of(
                public_key@,
            )
        },
        DnssecData::Ds { key_tag, algorithm, digest_type, digest } => {
            spec_decimal(key_tag as nat) + seq![' '] + algorithm@ + seq![' '] + digest_type@
                + seq![' '] + base64_of(digest@)
        },
        DnssecData::Key {
            key_trust,
            key_usage,
            signatory,
            revoke,
            protocol,
            algorithm,
            public_key,
        } => {
            key_trust@ + seq![' '] + key_usage@ + seq![' '] + signatory@ + seq![' ']
                + spec_bool_text(revoke) + seq![' '] + protocol@ + seq![' '] + algorithm@
                + seq![' '] + base64_of(public_key@)
        },
        DnssecData::Nsec { next_domain_name, type_bit_maps } => {
            next_domain_name@ + seq![' '] + spec_type_list_text(type_bit_maps@, 0)
        },
        DnssecData::Other { text } => text@,
    }
}

/// Render a security-extension payload.
pub fn display_dnssec_rdata(d: &DnssecData) -> (r: String)
    ensures
        r@ == spec_display_dnssec(*d),
{
    match d {
        DnssecData::DnsKey { zone_key, secure_entry_point, revoke, algorithm, public_key } => {
            let mut s = bool_to_string(*zone_key);
            s.append(" ");
            s.append(bool_to_string(*secure_entry_point).as_str());
            s.append(" ");
            s.append(bool_to_string(*revoke).as_str());
            s.append(" ");
            s.append(algorithm.as_str());
            s.append(" ");
            s.append(base64_encode(public_key.as_slice()).as_str());
            proof {
                reveal_strlit(" ");
                assert(s@ =~= spec_display_dnssec(*d));
            }
            s
        },
        DnssecData::Ds { key_tag, algorithm, digest_type, digest } => {
            let mut s = u64_to_string(*key_tag as u64);
            s.append(" ");
            s.append(algorithm.as_str());
            s.append(" ");
            s.append(digest_type.as_str());
            s.append(" ");
            s.append(base64_encode(digest.as_slice()).as_str());
            proof {
                reveal_strlit(" ");
                assert(s@ =~= spec_display_dnssec(*d));
            }
            s
        },
        DnssecData::Key {
            key_trust,
            key_usage,
            signatory,
            revoke,
            protocol,
            algorithm,
            public_key,
        } => {
            let mut s = key_trust.clone();
            s.append(" ");
            s.append(key_usage.as_str());
            s.append(" ");
            s.append(signatory.as_str());
            s.append(" ");
            s.append(bool_to_string(*revoke).as_str());
            s.append(" ");
            s.append(protocol.as_str());
            s.append(" ");
            s.append(algorithm.as_str());
            s.append(" ");
            s.append(base64_encode(public_key.as_slice()).as_str());
            proof {
                reveal_strlit(" ");
                assert(s@ =~= spec_display_dnssec(*d));
            }
            s
        },
        DnssecData::Nsec { next_domain_name, type_bit_maps } => {
            let mut s = next_domain_name.clone();
            s.append(" ");
            s.append(type_list_text(type_bit_maps, 0).as_str());
            proof {
                reveal_strlit(" ");
                assert(s@ =~= spec_display_dnssec(*d));
            }
            s
        },
        DnssecData::Other { text } => text.clone(),
    }
}

/// The text of a resource record's payload, as the run's output shows it.
pub open spec fn spec_display_rdata(d: RecordData) -> Seq<char> {
    match d {
        RecordData::A { address } => spec_ipv4_text(address),
        RecordData::Aaaa { address } => spec_ipv6_text(address),
        RecordData::Cname { name } => name@,
        RecordData::Aname { name } => name@,
        RecordData::Caa { tag, value } => tag@ + seq![' '] + spec_display_caa_value(value),
        RecordData::Mx { preference, exchange } => spec_decimal(preference as nat) + seq![' ']
            + exchange@,
        RecordData::Naptr { order, preference, flags, services, regexp, replacement } => {
            spec_decimal(order as nat) + seq![' '] + spec_decimal(preference as nat) + seq![' ']
                + text_or_base64(flags@) + seq![' '] + text_or_base64(services@) + seq![' ']
                + text_or_base64(regexp@) + seq![' '] + replacement@
        },
        RecordData::Null { data } => text_or_base64(data@),
        RecordData::Ns { name } => name@,
        RecordData::Ptr { name } => name@,
        RecordData::OpenPgpKey { public_key } => base64_of(public_key@),
        RecordData::Soa { soa } => {
            soa.mname@ + seq![' '] + soa.rname@ + seq![' '] + spec_decimal(soa.serial as nat)
                + seq![' '] + spec_decimal_signed(soa.refresh as int) + seq![' ']
                + spec_decimal_signed(soa.retry as int) + seq![' '] + spec_decimal_signed(
                soa.expire as int,
            ) + seq![' '] + spec_decimal(soa.minimum as nat)
        },
        RecordData::Srv { priority, weight, port, target } => {
            spec_decimal(priority as nat) + seq![' '] + spec_decimal(weight as nat) + seq![' ']
                + spec_decimal(port as nat) + seq![' '] + target@
        },
        RecordData::Txt { data } => spec_txt_chunks_text(data@, 0),
        RecordData::Unknown { code, data } => spec_decimal(code as nat) + seq![' ']
            + text_or_base64(data@),
        RecordData::Dnssec { data } => spec_display_dnssec(data),
        RecordData::Other { text } => text@,
    }
}

/// Render a resource record's payload.
pub fn display_rdata(d: &RecordData) -> (r: String)
    ensures
        r@ == spec_display_rdata(*d),
{
    match d {
        RecordData::A { address } => ipv4_to_string(address),
        RecordData::Aaaa { address } => ipv6_to_string(address),
        RecordData::Cname { name } => name.clone(),
        RecordData::Aname { name } => name.clone(),
        RecordData::Caa { tag, value } => {
            let mut s = tag.clone();
            s.append(" ");
            s.append(display_caa_value(value).as_str());
            proof {
                reveal_strlit(" ");
                assert(s@ =~= spec_display_rdata(*d));
            }
            s
        },
        RecordData::Mx { preference, exchange } => {
            let mut s = u64_to_string(*preference as u64);
            s.append(" ");
            s.append(exchange.as_str());
            proof {
                reveal_strlit(" ");
                assert(s@ =~= spec_display_rdata(*d));
            }
            s
        },
        RecordData::Naptr { order, preference, flags, services, regexp, replacement } => {
            let mut s = u64_to_string(*order as u64);
            s.append(" ");
            s.append(u64_to_string(*preference as u64).as_str());
            s.append(" ");
            s.append(bytes_display(flags.as_slice()).as_str());
            s.append(" ");
            s.append(bytes_display(services.as_slice()).as_str());
            s.append(" ");
            s.append(bytes_display(regexp.as_slice()).as_str());
            s.append(" ");
            s.append(replacement.as_str());
            proof {
                reveal_strlit(" ");
                assert(s@ =~= spec_display_rdata(*d));
            }
            s
        },
        RecordData::Null { data } => bytes_display(data.as_slice()),
        RecordData::Ns { name } => name.clone(),
        RecordData::Ptr { name } => name.clone(),
        RecordData::OpenPgpKey { public_key } => base64_encode(public_key.as_slice()),
        RecordData::Soa { soa } => {
            let mut s = soa.mname.clone();
            s.append(" ");
            s.append(soa.rname.as_str());
            s.append(" ");
            s.append(u64_to_string(soa.serial as u64).as_str());
            s.append(" ");
            s.append(i64_to_string(soa.refresh as i64).as_str());
            s.append(" ");
            s.append(i64_to_string(soa.retry as i64).as_str());
            s.append(" ");
            s.append(i64_to_string(soa.expire as i64).as_str());
            s.append(" ");
            s.append(u64_to_string(soa.minimum as u64).as_str());
            proof {
                reveal_strlit(" ");
                assert(s@ =~= spec_display_rdata(*d));
            }
            s
        },
        RecordData::Srv { priority, weight, port, target } => {
            let mut s = u64_to_string(*priority as u64);
            s.append(" ");
            s.append(u64_to_string(*weight as u64).as_str());
            s.append(" ");
            s.append(u64_to_string(*port as u64).as_str());
            s.append(" ");
            s.append(target.as_str());
            proof {
                reveal_strlit(" ");
                assert(s@ =~= spec_display_rdata(*d));
            }
            s
        },
        RecordData::Txt { data } => txt_chunks_text(data, 0),
        RecordData::Unknown { code, data } => {
            let mut s = u64_to_string(*code as u64);
            s.append(" ");
            s.append(bytes_display(data.as_slice()).as_str());
            proof {
                reveal_strlit(" ");
                assert(s@ =~= spec_display_rdata(*d));
            }
            s
        },
        RecordData::Dnssec { data } => display_dnssec_rdata(data),
        RecordData::Other { text } => text.clone(),
    }
}

/// The one-line text of a collected record: owner name, type, and payload,
/// colon-separated.
pub open spec fn spec_display_record(r: ResourceRecord) -> Seq<char> {
    r.name@ + seq![':'] + r.record_type@ + seq![':'] + spec_display_rdata(r.data)
}

/// Render one collected record as its output line.
pub fn display_record(r: &ResourceRecord) -> (out: String)
    ensures
        out@ == spec_display_record(*r),
{
    let mut s = r.name.clone();
    s.append(":");
    s.append(r.record_type.as_str());
    s.append(":");
    s.append(display_rdata(&r.data).as_str());
    proof {
        reveal_strlit(":");
        assert(s@ =~= spec_display_record(*r));
    }
    s
}

} // verus!
