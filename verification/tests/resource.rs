use impact::binary::decoder::{Decodable, Decoder};
use impact::message::DecodeError;
use impact::resource::{
    Ipv4Address, Ipv6Address, MXData, RData, ResourceClass, ResourceType, SOAData,
};

#[test]
fn type_codes_are_those_of_the_wire() {
    let table = [
        (ResourceType::A, 1u16),
        (ResourceType::NS, 2),
        (ResourceType::CNAME, 5),
        (ResourceType::SOA, 6),
        (ResourceType::WKS, 11),
        (ResourceType::PTR, 12),
        (ResourceType::MX, 15),
        (ResourceType::AAAA, 28),
        (ResourceType::SRV, 33),
    ];
    for (rtype, code) in table.iter() {
        assert_eq!(rtype.code(), *code);
        assert_eq!(ResourceType::from_code(*code), Ok(*rtype));
    }
}

#[test]
fn every_other_type_code_is_unsupported() {
    let known = [1u16, 2, 5, 6, 11, 12, 15, 28, 33];
    for code in 0u16..=65535 {
        if !known.contains(&code) {
            assert_eq!(
                ResourceType::from_code(code),
                Err(DecodeError::UnsupportedType)
            );
        }
    }
}

#[test]
fn class_code_is_that_of_the_wire() {
    assert_eq!(ResourceClass::IN.code(), 1);
    assert_eq!(ResourceClass::from_code(1), Ok(ResourceClass::IN));
    assert_eq!(
        ResourceClass::from_code(0),
        Err(DecodeError::UnsupportedClass)
    );
    assert_eq!(
        ResourceClass::from_code(2),
        Err(DecodeError::UnsupportedClass)
    );
    assert_eq!(
        ResourceClass::from_code(255),
        Err(DecodeError::UnsupportedClass)
    );
}

#[test]
fn type_names_are_looked_up() {
    let table = [
        ("A", ResourceType::A),
        ("NS", ResourceType::NS),
        ("CNAME", ResourceType::CNAME),
        ("SOA", ResourceType::SOA),
        ("WKS", ResourceType::WKS),
        ("PTR", ResourceType::PTR),
        ("MX", ResourceType::MX),
        ("SRV", ResourceType::SRV),
        ("AAAA", ResourceType::AAAA),
    ];
    for (name, rtype) in table.iter() {
        assert_eq!(ResourceType::from_string(name.to_string()), Some(*rtype));
    }
}

#[test]
fn unknown_type_names_are_none() {
    for name in ["", "a", "aaaa", "AAAAA", "TXT", " A", "A ", "28"].iter() {
        assert_eq!(ResourceType::from_string(name.to_string()), None);
    }
}

#[test]
fn type_decodes_from_two_bytes() {
    let data = vec![0u8, 28, 0, 99, 0];
    let mut decoder = Decoder::new(&data);
    assert_eq!(ResourceType::decode(&mut decoder), Ok(ResourceType::AAAA));
    assert_eq!(decoder.offset(), 2);
    assert_eq!(
        ResourceType::decode(&mut decoder),
        Err(DecodeError::UnsupportedType)
    );
    assert_eq!(decoder.offset(), 2);
    decoder.read_u16().unwrap();
    assert_eq!(
        ResourceType::decode(&mut decoder),
        Err(DecodeError::EndOfInput)
    );
}

#[test]
fn class_decodes_from_two_bytes() {
    let data = vec![0u8, 1, 1, 1];
    let mut decoder = Decoder::new(&data);
    assert_eq!(ResourceClass::decode(&mut decoder), Ok(ResourceClass::IN));
    assert_eq!(
        ResourceClass::decode(&mut decoder),
        Err(DecodeError::UnsupportedClass)
    );
    assert_eq!(decoder.offset(), 2);
}

#[test]
fn constructors_keep_their_arguments() {
    let soa = SOAData::new(String::from("ns"), String::from("mb"), 1, 2, 3, 4, 5);
    assert_eq!(soa.primary_ns, "ns");
    assert_eq!(soa.admin_mb, "mb");
    assert_eq!(soa.serial, 1);
    assert_eq!(soa.refresh_interval, 2);
    assert_eq!(soa.retry_interval, 3);
    assert_eq!(soa.expiration_limit, 4);
    assert_eq!(soa.minimal_ttl, 5);
    let mx = MXData::new(10, String::from("mail"));
    assert_eq!(mx.preference, 10);
    assert_eq!(mx.mx, "mail");
    assert_eq!(Ipv4Address::new(1, 2, 3, 4).octets, [1, 2, 3, 4]);
    assert_eq!(
        Ipv6Address::new(1, 2, 3, 4, 5, 6, 7, 8).segments,
        [1, 2, 3, 4, 5, 6, 7, 8]
    );
}

#[test]
fn addresses_decode_in_network_order() {
    let data = vec![
        127u8, 0, 0, 1, 0xfe, 0x80, 0, 0, 0, 0, 0, 0, 0, 0, 0, 0, 0, 0, 0x12, 0x34,
    ];
    let mut decoder = Decoder::new(&data);
    assert_eq!(
        Ipv4Address::decode(&mut decoder),
        Ok(Ipv4Address::new(127, 0, 0, 1))
    );
    assert_eq!(
        Ipv6Address::decode(&mut decoder),
        Ok(Ipv6Address::new(0xfe80, 0, 0, 0, 0, 0, 0, 0x1234))
    );
    assert_eq!(decoder.offset(), 20);
    assert_eq!(
        Ipv4Address::decode(&mut decoder),
        Err(DecodeError::EndOfInput)
    );
}

#[test]
fn payload_is_of_the_variant_of_its_type() {
    let name = vec![1u8, b'n', 0];
    for (rtype, expected) in [
        (ResourceType::NS, RData::NS(String::from("n"))),
        (ResourceType::CNAME, RData::CNAME(String::from("n"))),
        (ResourceType::PTR, RData::PTR(String::from("n"))),
    ]
    .into_iter()
    {
        let mut decoder = Decoder::new(&name);
        assert_eq!(RData::decode_as(&mut decoder, rtype), Ok(expected));
        assert_eq!(decoder.offset(), 3);
    }
    let mut decoder = Decoder::new(&name);
    assert_eq!(
        RData::decode_as(&mut decoder, ResourceType::WKS),
        Err(DecodeError::UnsupportedType)
    );
    assert_eq!(
        RData::decode_as(&mut decoder, ResourceType::SRV),
        Err(DecodeError::UnsupportedType)
    );
    assert_eq!(
        RData::decode_as(&mut decoder, ResourceType::A),
        Err(DecodeError::EndOfInput)
    );
    assert_eq!(decoder.offset(), 0);
}

#[test]
fn dotted_decimal_addresses_are_read() {
    assert_eq!(
        Ipv4Address::from_dotted("192.0.2.1"),
        Some(Ipv4Address::new(192, 0, 2, 1))
    );
    assert_eq!(
        Ipv4Address::from_dotted("0.0.0.0"),
        Some(Ipv4Address::new(0, 0, 0, 0))
    );
    assert_eq!(
        Ipv4Address::from_dotted("255.255.255.255"),
        Some(Ipv4Address::new(255, 255, 255, 255))
    );
    assert_eq!(
        Ipv4Address::from_dotted("10.20.30.199"),
        Some(Ipv4Address::new(10, 20, 30, 199))
    );
}

#[test]
fn what_is_no_dotted_decimal_address_is_none() {
    for text in [
        "",
        "1",
        "1.2.3",
        "1.2.3.4.5",
        "1.2.3.",
        ".1.2.3",
        "1..2.3",
        "256.1.1.1",
        "1.1.1.256",
        "999.1.1.1",
        "01.2.3.4",
        "1.2.3.04",
        "00.0.0.0",
        "1.2.3.4 ",
        " 1.2.3.4",
        "a.b.c.d",
        "1.2.3.-4",
        "1.2.3.+4",
        "1111.2.3.4",
        "1.2.3.4\n",
        "\u{661}.2.3.4",
    ]
    .iter()
    {
        assert_eq!(Ipv4Address::from_dotted(text), None, "{:?}", text);
    }
}
