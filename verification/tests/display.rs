use base64::Engine;

use scrutiny::ip::Ipv4Address;
use scrutiny::ip::Ipv6Address;
use scrutiny::records::CaaParameter;
use scrutiny::records::CaaValue;
use scrutiny::records::DnssecData;
use scrutiny::records::RecordData;
use scrutiny::records::ResourceRecord;
use scrutiny::records::SoaData;
use scrutiny::records::display_rdata;
use scrutiny::records::display_record;

#[test]
fn test_display_rdata_a_rec() {
    let data = RecordData::A { address: Ipv4Address { a: 127, b: 0, c: 0, d: 1 } };
    assert_eq!(display_rdata(&data), "127.0.0.1");
}

#[test]
fn test_display_rdata_aaaa_rec() {
    // 2001:0db8:85a3:0000:0000:8a2e:0370:7334 in its canonical form
    let data = RecordData::Aaaa {
        address: Ipv6Address {
            s0: 0x2001,
            s1: 0x0db8,
            s2: 0x85a3,
            s3: 0,
            s4: 0,
            s5: 0x8a2e,
            s6: 0x0370,
            s7: 0x7334,
        },
    };
    assert_eq!(display_rdata(&data), "2001:db8:85a3::8a2e:370:7334");
}

#[test]
fn test_display_rdata_aname_rec() {
    let data = RecordData::Aname { name: String::from("localhost") };
    assert_eq!(display_rdata(&data), "localhost");
}

#[test]
fn test_display_rdata_caa_rec_issue() {
    let data = RecordData::Caa {
        tag: String::from("issue"),
        value: CaaValue::Issuer { name: Some(String::from("localhost")), parameters: vec![] },
    };
    assert_eq!(display_rdata(&data), "issue localhost");
}

#[test]
fn test_display_rdata_mx_rec() {
    let data = RecordData::Mx { preference: 0, exchange: String::from("localhost") };
    assert_eq!(display_rdata(&data), "0 localhost");
}

#[test]
fn test_display_rdata_naptr_rec() {
    let data = RecordData::Naptr {
        order: 0,
        preference: 1,
        flags: String::from("flags").into_bytes(),
        services: String::from("services").into_bytes(),
        regexp: String::from("regexp").into_bytes(),
        replacement: String::from("localhost"),
    };
    assert_eq!(display_rdata(&data), "0 1 flags services regexp localhost");
}

#[test]
fn test_display_rdata_null_rec() {
    let data = RecordData::Null { data: String::from("test").into_bytes() };
    assert_eq!(display_rdata(&data), "test");
}

#[test]
fn test_display_rdata_ns_rec() {
    let data = RecordData::Ns { name: String::from("localhost") };
    assert_eq!(display_rdata(&data), "localhost");
}

#[test]
fn test_display_rdata_ptr_rec() {
    let data = RecordData::Ptr { name: String::from("localhost") };
    assert_eq!(display_rdata(&data), "localhost");
}

#[test]
fn test_display_rdata_opengpkey_rec() {
    let key = vec![10_u8; 10];
    let data = RecordData::OpenPgpKey { public_key: key.clone() };
    assert_eq!(
        display_rdata(&data),
        base64::engine::general_purpose::STANDARD.encode(key)
    );
}

#[test]
fn test_display_rdata_soa_rec() {
    let data = RecordData::Soa {
        soa: SoaData {
            mname: String::from("mname"),
            rname: String::from("rname"),
            serial: 0,
            refresh: 1,
            retry: 2,
            expire: 3,
            minimum: 4,
        },
    };
    assert_eq!(display_rdata(&data), "mname rname 0 1 2 3 4");
}

#[test]
fn test_display_rdata_srv_rec() {
    let data = RecordData::Srv {
        priority: 0,
        weight: 1,
        port: 2,
        target: String::from("name"),
    };
    assert_eq!(display_rdata(&data), "0 1 2 name");
}

#[test]
fn test_display_rdata_txt_rec() {
    let data = RecordData::Txt {
        data: vec![
            String::from("test").into_bytes(),
            String::from("testing").into_bytes(),
        ],
    };
    assert_eq!(display_rdata(&data), "test,testing");
}

#[test]
fn test_display_rdata_unknown_rec() {
    let data = RecordData::Unknown { code: 10, data: String::from("test").into_bytes() };
    assert_eq!(display_rdata(&data), "10 test");
}

#[test]
fn test_display_rdata_caa_issuer_parameters() {
    let data = RecordData::Caa {
        tag: String::from("issue"),
        value: CaaValue::Issuer {
            name: Some(String::from("authority.test")),
            parameters: vec![
                CaaParameter { key: String::from("account"), value: String::from("12") },
                CaaParameter { key: String::from("policy"), value: String::from("ev") },
            ],
        },
    };
    assert_eq!(display_rdata(&data), "issue authority.test account:12 policy:ev");
}

#[test]
fn test_display_rdata_caa_no_issuer_no_parameters() {
    let data = RecordData::Caa {
        tag: String::from("issue"),
        value: CaaValue::Issuer { name: None, parameters: vec![] },
    };
    assert_eq!(display_rdata(&data), "issue ");
}

#[test]
fn test_display_rdata_caa_unknown_value() {
    let data = RecordData::Caa {
        tag: String::from("other"),
        value: CaaValue::Unknown { data: vec![0xff, 0xfe] },
    };
    assert_eq!(display_rdata(&data), "other //4=");
}

#[test]
fn test_display_rdata_null_rec_invalid_utf8() {
    // bytes that are no UTF-8 fall back to their encoding
    let data = RecordData::Null { data: vec![0xff, 0xfe] };
    assert_eq!(display_rdata(&data), "//4=");
}

#[test]
fn test_display_rdata_dnskey_rec() {
    let data = RecordData::Dnssec {
        data: DnssecData::DnsKey {
            zone_key: true,
            secure_entry_point: false,
            revoke: false,
            algorithm: String::from("RSASHA256"),
            public_key: vec![10_u8; 10],
        },
    };
    assert_eq!(display_rdata(&data), "true false false RSASHA256 CgoKCgoKCgoKCg==");
}

#[test]
fn test_display_rdata_ds_rec() {
    let data = RecordData::Dnssec {
        data: DnssecData::Ds {
            key_tag: 60485,
            algorithm: String::from("RSASHA1"),
            digest_type: String::from("SHA1"),
            digest: vec![1, 2, 3],
        },
    };
    assert_eq!(display_rdata(&data), "60485 RSASHA1 SHA1 AQID");
}

#[test]
fn test_display_rdata_nsec_rec() {
    let data = RecordData::Dnssec {
        data: DnssecData::Nsec {
            next_domain_name: String::from("host.example.test."),
            type_bit_maps: vec![String::from("A"), String::from("MX"), String::from("TXT")],
        },
    };
    assert_eq!(display_rdata(&data), "host.example.test. A,MX,TXT");
}

#[test]
fn test_display_record_line() {
    let record = ResourceRecord {
        name: String::from("www.example.test."),
        record_type: String::from("A"),
        data: RecordData::A { address: Ipv4Address { a: 10, b: 0, c: 0, d: 1 } },
    };
    assert_eq!(display_record(&record), "www.example.test.:A:10.0.0.1");
}
