//! Record types, record classes and the typed payloads of resource records.

use crate::binary::decoder;
use crate::binary::decoder::{Decodable, DecodeResult, Decoder, Parsed};
use crate::message;
use crate::message::DecodeError;
use vstd::prelude::*;
use vstd::string::StringExecFns;

verus! {

/// An IPv4 address, as its four bytes in network order.
#[derive(Clone, Copy, Debug, PartialEq, Eq)]
pub struct Ipv4Address {
    pub octets: [u8; 4],
}

/// The byte is a decimal digit.
pub open spec fn is_digit(b: u8) -> bool {
    0x30 <= b <= 0x39
}

/// The number that `field` spells: one to three decimal digits, without a
/// leading zero unless it is the single digit `0`, and at most 255.
pub open spec fn octet_of(field: Seq<u8>) -> Option<u8> {
    if field.len() == 1 && is_digit(field[0]) {
        Some((field[0] - 0x30) as u8)
    } else if field.len() == 2 && is_digit(field[0]) && field[0] != 0x30 && is_digit(field[1]) {
        Some(((field[0] - 0x30) * 10 + (field[1] - 0x30)) as u8)
    } else if field.len() == 3 && is_digit(field[0]) && field[0] != 0x30 && is_digit(field[1])
        && is_digit(field[2]) && (field[0] - 0x30) * 100 + (field[1] - 0x30) * 10 + (field[2]
        - 0x30) <= 0xFF {
        Some(((field[0] - 0x30) * 100 + (field[1] - 0x30) * 10 + (field[2] - 0x30)) as u8)
    } else {
        None
    }
}

/// The address that `text` spells in dotted decimal: exactly four fields
/// with dots between them, each of them an octet.
pub open spec fn address_of(text: Seq<u8>) -> Option<Ipv4Address> {
    let fields = message::split_labels(text);
    if fields.len() == 4 && octet_of(fields[0]) is Some && octet_of(fields[1]) is Some && octet_of(
        fields[2],
    ) is Some && octet_of(fields[3]) is Some {
        Some(
            Ipv4Address {
                octets: [
                    octet_of(fields[0])->Some_0,
                    octet_of(fields[1])->Some_0,
                    octet_of(fields[2])->Some_0,
                    octet_of(fields[3])->Some_0,
                ],
            },
        )
    } else {
        None
    }
}

/// Reads the bytes `start..end` of `text` as an octet.
fn read_octet(text: &[u8], start: usize, end: usize) -> (r: Option<u8>)
    requires
        start <= end <= text@.len(),
    ensures
        r == octet_of(text@.subrange(start as int, end as int)),
{
    let ghost field = text@.subrange(start as int, end as int);
    let len = end - start;
    if len == 0 || len > 3 {
        return None;
    }
    let mut value: u16 = 0;
    let mut i = start;
    while i < end
        invariant
            start <= i <= end <= text@.len(),
            end - start <= 3,
            field == text@.subrange(start as int, end as int),
            forall|j: int| 0 <= j < i - start ==> is_digit(#[trigger] field[j]),
            i - start == 0 ==> value == 0,
            i - start == 1 ==> value == field[0] - 0x30,
            i - start == 2 ==> value == (field[0] - 0x30) * 10 + (field[1] - 0x30),
            i - start == 3 ==> value == (field[0] - 0x30) * 100 + (field[1] - 0x30) * 10 + (field[2]
                - 0x30),
        decreases end - i,
    {
        let b = text[i];
        if b < 0x30 || b > 0x39 {
            return None;
        }
        value = value * 10 + (b - 0x30) as u16;
        i = i + 1;
    }
    if len > 1 && text[start] == 0x30 {
        return None;
    }
    if value > 0xFF {
        return None;
    }
    Some(value as u8)
}

impl Ipv4Address {
    /// The address `a.b.c.d`.
    pub fn new(a: u8, b: u8, c: u8, d: u8) -> (ip: Ipv4Address)
        ensures
            ip == (Ipv4Address { octets: [a, b, c, d] }),
    {
        Ipv4Address { octets: [a, b, c, d] }
    }

    /// The address that `text` spells in dotted decimal, if it spells one.
    pub open spec fn spec_from_dotted(text: Seq<char>) -> Option<Ipv4Address> {
        address_of(vstd::utf8::encode_utf8(text))
    }

    /// Reads an address written in dotted decimal, such as `192.0.2.1`.
    /// Nothing may stand before or after the four fields.
    pub fn from_dotted(text: &str) -> (r: Option<Ipv4Address>)
        ensures
            r == Ipv4Address::spec_from_dotted(text@),
    {
        let bytes = text.as_bytes();
        let bounds = message::label_bounds(bytes);
        if bounds.len() != 4 {
            return None;
        }
        let a = read_octet(bytes, bounds[0].0, bounds[0].1)?;
        let b = read_octet(bytes, bounds[1].0, bounds[1].1)?;
        let c = read_octet(bytes, bounds[2].0, bounds[2].1)?;
        let d = read_octet(bytes, bounds[3].0, bounds[3].1)?;
        Some(Ipv4Address::new(a, b, c, d))
    }
}

impl View for Ipv4Address {
    type V = Ipv4Address;

    open spec fn view(&self) -> Ipv4Address {
        *self
    }
}

impl Decodable for Ipv4Address {
    /// Four bytes, in the order of the address.
    open spec fn parse(data: Seq<u8>, at: int) -> Parsed<Ipv4Address> {
        if 0 <= at && at + 4 <= data.len() {
            Ok((Ipv4Address { octets: [data[at], data[at + 1], data[at + 2], data[at + 3]] }, at + 4))
        } else {
            Err(DecodeError::EndOfInput)
        }
    }

    fn decode(d: &mut Decoder) -> (r: DecodeResult<Ipv4Address>) {
        let mut cursor = *d;
        let a = cursor.read_u8()?;
        let b = cursor.read_u8()?;
        let c = cursor.read_u8()?;
        let e = cursor.read_u8()?;
        *d = cursor;
        Ok(Ipv4Address::new(a, b, c, e))
    }
}

/// An IPv6 address, as its eight 16-bit groups in network order.
#[derive(Clone, Copy, Debug, PartialEq, Eq)]
pub struct Ipv6Address {
    pub segments: [u16; 8],
}

impl Ipv6Address {
    /// The address `a:b:c:d:e:f:g:h`.
    pub fn new(a: u16, b: u16, c: u16, d: u16, e: u16, f: u16, g: u16, h: u16) -> (ip:
        Ipv6Address)
        ensures
            ip == (Ipv6Address { segments: [a, b, c, d, e, f, g, h] }),
    {
        Ipv6Address { segments: [a, b, c, d, e, f, g, h] }
    }
}

impl View for Ipv6Address {
    type V = Ipv6Address;

    open spec fn view(&self) -> Ipv6Address {
        *self
    }
}

impl Decodable for Ipv6Address {
    /// Eight big-endian 16-bit groups, in the order of the address.
    open spec fn parse(data: Seq<u8>, at: int) -> Parsed<Ipv6Address> {
        if 0 <= at && at + 16 <= data.len() {
            Ok(
                (
                    Ipv6Address {
                        segments: [
                            decoder::word_at(data, at),
                            decoder::word_at(data, at + 2),
                            decoder::word_at(data, at + 4),
                            decoder::word_at(data, at + 6),
                            decoder::word_at(data, at + 8),
                            decoder::word_at(data, at + 10),
                            decoder::word_at(data, at + 12),
                            decoder::word_at(data, at + 14),
                        ],
                    },
                    at + 16,
                ),
            )
        } else {
            Err(DecodeError::EndOfInput)
        }
    }

    fn decode(d: &mut Decoder) -> (r: DecodeResult<Ipv6Address>) {
        let mut cursor = *d;
        let a = cursor.read_u16()?;
        let b = cursor.read_u16()?;
        let c = cursor.read_u16()?;
        let e = cursor.read_u16()?;
        let f = cursor.read_u16()?;
        let g = cursor.read_u16()?;
        let h = cursor.read_u16()?;
        let i = cursor.read_u16()?;
        *d = cursor;
        Ok(Ipv6Address::new(a, b, c, e, f, g, h, i))
    }
}

/// The kinds of resource record that a message may name.
#[derive(Copy, Clone, Debug, PartialEq, Eq, Structural)]
pub enum ResourceType {
    A,
    NS,
    CNAME,
    SOA,
    WKS,
    PTR,
    MX,
    AAAA,
    SRV,
}

impl ResourceType {
    /// The number that stands for this type on the wire.
    pub open spec fn spec_code(self) -> u16 {
        match self {
            ResourceType::A => 1,
            ResourceType::NS => 2,
            ResourceType::CNAME => 5,
            ResourceType::SOA => 6,
            ResourceType::WKS => 11,
            ResourceType::PTR => 12,
            ResourceType::MX => 15,
            ResourceType::AAAA => 28,
            ResourceType::SRV => 33,
        }
    }

    /// The type that `code` stands for on the wire, if there is one.
    pub open spec fn spec_from_code(code: u16) -> Option<ResourceType> {
        if code == 1 {
            Some(ResourceType::A)
        } else if code == 2 {
            Some(ResourceType::NS)
        } else if code == 5 {
            Some(ResourceType::CNAME)
        } else if code == 6 {
            Some(ResourceType::SOA)
        } else if code == 11 {
            Some(ResourceType::WKS)
        } else if code == 12 {
            Some(ResourceType::PTR)
        } else if code == 15 {
            Some(ResourceType::MX)
        } else if code == 28 {
            Some(ResourceType::AAAA)
        } else if code == 33 {
            Some(ResourceType::SRV)
        } else {
            None
        }
    }

    /// The type that the mnemonic `name` stands for, if there is one.
    pub open spec fn spec_from_string(name: Seq<char>) -> Option<ResourceType> {
        if name == "A"@ {
            Some(ResourceType::A)
        } else if name == "NS"@ {
            Some(ResourceType::NS)
        } else if name == "CNAME"@ {
            Some(ResourceType::CNAME)
        } else if name == "SOA"@ {
            Some(ResourceType::SOA)
        } else if name == "WKS"@ {
            Some(ResourceType::WKS)
        } else if name == "PTR"@ {
            Some(ResourceType::PTR)
        } else if name == "MX"@ {
            Some(ResourceType::MX)
        } else if name == "SRV"@ {
            Some(ResourceType::SRV)
        } else if name == "AAAA"@ {
            Some(ResourceType::AAAA)
        } else {
            None
        }
    }

    /// The number that stands for this type on the wire.
    #[verifier::when_used_as_spec(spec_code)]
    pub fn code(self) -> (c: u16)
        ensures
            c == self.spec_code(),
    {
        match self {
            ResourceType::A => 1,
            ResourceType::NS => 2,
            ResourceType::CNAME => 5,
            ResourceType::SOA => 6,
            ResourceType::WKS => 11,
            ResourceType::PTR => 12,
            ResourceType::MX => 15,
            ResourceType::AAAA => 28,
            ResourceType::SRV => 33,
        }
    }

    /// Looks a wire code up; a code that stands for no type is an error, not
    /// a default.
    pub fn from_code(code: u16) -> (r: Result<ResourceType, DecodeError>)
        ensures
            match ResourceType::spec_from_code(code) {
                Some(t) => r == Ok::<ResourceType, DecodeError>(t),
                None => r == Err::<ResourceType, DecodeError>(DecodeError::UnsupportedType),
            },
    {
        match code {
            1 => Ok(ResourceType::A),
            2 => Ok(ResourceType::NS),
            5 => Ok(ResourceType::CNAME),
            6 => Ok(ResourceType::SOA),
            11 => Ok(ResourceType::WKS),
            12 => Ok(ResourceType::PTR),
            15 => Ok(ResourceType::MX),
            28 => Ok(ResourceType::AAAA),
            33 => Ok(ResourceType::SRV),
            _ => Err(DecodeError::UnsupportedType),
        }
    }

    /// Looks a mnemonic such as `"AAAA"` up.
    pub fn from_string(v: String) -> (r: Option<ResourceType>)
        ensures
            r == ResourceType::spec_from_string(v@),
    {
        if v == String::from_str("A") {
            Some(ResourceType::A)
        } else if v == String::from_str("NS") {
            Some(ResourceType::NS)
        } else if v == String::from_str("CNAME") {
            Some(ResourceType::CNAME)
        } else if v == String::from_str("SOA") {
            Some(ResourceType::SOA)
        } else if v == String::from_str("WKS") {
            Some(ResourceType::WKS)
        } else if v == String::from_str("PTR") {
            Some(ResourceType::PTR)
        } else if v == String::from_str("MX") {
            Some(ResourceType::MX)
        } else if v == String::from_str("SRV") {
            Some(ResourceType::SRV)
        } else if v == String::from_str("AAAA") {
            Some(ResourceType::AAAA)
        } else {
            None
        }
    }
}

impl View for ResourceType {
    type V = ResourceType;

    open spec fn view(&self) -> ResourceType {
        *self
    }
}

impl Decodable for ResourceType {
    /// A big-endian 16-bit code that stands for a type.
    open spec fn parse(data: Seq<u8>, at: int) -> Parsed<ResourceType> {
        match decoder::parse_u16(data, at) {
            Ok((code, after)) => match ResourceType::spec_from_code(code) {
                Some(t) => Ok((t, after)),
                None => Err(DecodeError::UnsupportedType),
            },
            Err(e) => Err(e),
        }
    }

    fn decode(d: &mut Decoder) -> (r: DecodeResult<ResourceType>) {
        let mut cursor = *d;
        let code = cursor.read_u16()?;
        let t = ResourceType::from_code(code)?;
        *d = cursor;
        Ok(t)
    }
}

/// Each type has its own code, and the code leads back to the type.
pub proof fn lemma_type_code_round_trip(t: ResourceType)
    ensures
        ResourceType::spec_from_code(t.spec_code()) == Some(t),
{
}

/// A code that stands for a type is the code of that type.
pub proof fn lemma_type_from_code_is_its_code(code: u16)
    ensures
        ResourceType::spec_from_code(code) matches Some(t) ==> t.spec_code() == code,
{
}

/// The classes of resource record that a message may name.
#[derive(Copy, Clone, Debug, PartialEq, Eq, Structural)]
pub enum ResourceClass {
    IN,
}

impl ResourceClass {
    /// The number that stands for this class on the wire.
    pub open spec fn spec_code(self) -> u16 {
        1
    }

    /// The class that `code` stands for on the wire, if there is one.
    pub open spec fn spec_from_code(code: u16) -> Option<ResourceClass> {
        if code == 1 {
            Some(ResourceClass::IN)
        } else {
            None
        }
    }

    /// The number that stands for this class on the wire.
    #[verifier::when_used_as_spec(spec_code)]
    pub fn code(self) -> (c: u16)
        ensures
            c == self.spec_code(),
    {
        match self {
            ResourceClass::IN => 1,
        }
    }

    /// Looks a wire code up; a code that stands for no class is an error, not
    /// a default.
    pub fn from_code(code: u16) -> (r: Result<ResourceClass, DecodeError>)
        ensures
            match ResourceClass::spec_from_code(code) {
                Some(c) => r == Ok::<ResourceClass, DecodeError>(c),
                None => r == Err::<ResourceClass, DecodeError>(DecodeError::UnsupportedClass),
            },
    {
        match code {
            1 => Ok(ResourceClass::IN),
            _ => Err(DecodeError::UnsupportedClass),
        }
    }
}

impl View for ResourceClass {
    type V = ResourceClass;

    open spec fn view(&self) -> ResourceClass {
        *self
    }
}

impl Decodable for ResourceClass {
    /// A big-endian 16-bit code that stands for a class.
    open spec fn parse(data: Seq<u8>, at: int) -> Parsed<ResourceClass> {
        match decoder::parse_u16(data, at) {
            Ok((code, after)) => match ResourceClass::spec_from_code(code) {
                Some(c) => Ok((c, after)),
                None => Err(DecodeError::UnsupportedClass),
            },
            Err(e) => Err(e),
        }
    }

    fn decode(d: &mut Decoder) -> (r: DecodeResult<ResourceClass>) {
        let mut cursor = *d;
        let code = cursor.read_u16()?;
        let c = ResourceClass::from_code(code)?;
        *d = cursor;
        Ok(c)
    }
}

/// The payload of a start-of-authority record.
#[derive(Debug, PartialEq)]
pub struct SOAData {
    pub primary_ns: String,
    pub admin_mb: String,
    pub serial: u32,
    pub refresh_interval: u32,
    pub retry_interval: u32,
    pub expiration_limit: u32,
    pub minimal_ttl: u32,
}

/// What an `SOAData` holds.
pub struct SOADataView {
    pub primary_ns: Seq<char>,
    pub admin_mb: Seq<char>,
    pub serial: u32,
    pub refresh_interval: u32,
    pub retry_interval: u32,
    pub expiration_limit: u32,
    pub minimal_ttl: u32,
}

impl View for SOAData {
    type V = SOADataView;

    open spec fn view(&self) -> SOADataView {
        SOADataView {
            primary_ns: self.primary_ns@,
            admin_mb: self.admin_mb@,
            serial: self.serial,
            refresh_interval: self.refresh_interval,
            retry_interval: self.retry_interval,
            expiration_limit: self.expiration_limit,
            minimal_ttl: self.minimal_ttl,
        }
    }
}

impl SOAData {
    pub fn new(
        ns: String,
        mb: String,
        serial: u32,
        refresh_interval: u32,
        retry_interval: u32,
        expiration_limit: u32,
        minimal_ttl: u32,
    ) -> (soa: SOAData)
        ensures
            soa@ == (SOADataView {
                primary_ns: ns@,
                admin_mb: mb@,
                serial,
                refresh_interval,
                retry_interval,
                expiration_limit,
                minimal_ttl,
            }),
    {
        SOAData {
            primary_ns: ns,
            admin_mb: mb,
            serial,
            refresh_interval,
            retry_interval,
            expiration_limit,
            minimal_ttl,
        }
    }
}

impl Decodable for SOAData {
    /// Two name fields, the primary nameserver and the administrator's
    /// mailbox, then five big-endian 32-bit numbers: serial, refresh, retry,
    /// expire and minimum.
    open spec fn parse(data: Seq<u8>, at: int) -> Parsed<SOADataView> {
        match decoder::parse_name(data, at) {
            Ok((primary_ns, a1)) => match decoder::parse_name(data, a1) {
                Ok((admin_mb, a2)) => if a2 + 20 <= data.len() {
                    Ok(
                        (
                            SOADataView {
                                primary_ns,
                                admin_mb,
                                serial: decoder::long_at(data, a2),
                                refresh_interval: decoder::long_at(data, a2 + 4),
                                retry_interval: decoder::long_at(data, a2 + 8),
                                expiration_limit: decoder::long_at(data, a2 + 12),
                                minimal_ttl: decoder::long_at(data, a2 + 16),
                            },
                            a2 + 20,
                        ),
                    )
                } else {
                    Err(DecodeError::EndOfInput)
                },
                Err(e) => Err(e),
            },
            Err(e) => Err(e),
        }
    }

    fn decode(d: &mut Decoder) -> (r: DecodeResult<SOAData>) {
        let mut cursor = *d;
        let primary_ns = cursor.read_name()?;
        let admin_mb = cursor.read_name()?;
        let serial = cursor.read_u32()?;
        let refresh_interval = cursor.read_u32()?;
        let retry_interval = cursor.read_u32()?;
        let expiration_limit = cursor.read_u32()?;
        let minimal_ttl = cursor.read_u32()?;
        *d = cursor;
        Ok(
            SOAData::new(
                primary_ns,
                admin_mb,
                serial,
                refresh_interval,
                retry_interval,
                expiration_limit,
                minimal_ttl,
            ),
        )
    }
}

/// The payload of a mail-exchange record.
#[derive(Debug, PartialEq)]
pub struct MXData {
    pub preference: u16,
    pub mx: String,
}

/// What an `MXData` holds.
pub struct MXDataView {
    pub preference: u16,
    pub mx: Seq<char>,
}

impl View for MXData {
    type V = MXDataView;

    open spec fn view(&self) -> MXDataView {
        MXDataView { preference: self.preference, mx: self.mx@ }
    }
}

impl MXData {
    pub fn new(pref: u16, mx: String) -> (data: MXData)
        ensures
            data@ == (MXDataView { preference: pref, mx: mx@ }),
    {
        MXData { preference: pref, mx }
    }
}

impl Decodable for MXData {
    /// A big-endian 16-bit preference, then the name field of the exchange.
    open spec fn parse(data: Seq<u8>, at: int) -> Parsed<MXDataView> {
        match decoder::parse_u16(data, at) {
            Ok((preference, a1)) => match decoder::parse_name(data, a1) {
                Ok((mx, a2)) => Ok((MXDataView { preference, mx }, a2)),
                Err(e) => Err(e),
            },
            Err(e) => Err(e),
        }
    }

    fn decode(d: &mut Decoder) -> (r: DecodeResult<MXData>) {
        let mut cursor = *d;
        let preference = cursor.read_u16()?;
        let mx = cursor.read_name()?;
        *d = cursor;
        Ok(MXData::new(preference, mx))
    }
}

/// The payload of a resource record, one variant for each record type whose
/// payload is decoded.
#[derive(Debug, PartialEq)]
pub enum RData {
    A(Ipv4Address),
    NS(String),
    CNAME(String),
    AAAA(Ipv6Address),
    SOA(SOAData),
    MX(MXData),
    PTR(String),
}

/// What an `RData` holds.
pub enum RDataView {
    A(Ipv4Address),
    NS(Seq<char>),
    CNAME(Seq<char>),
    AAAA(Ipv6Address),
    SOA(SOADataView),
    MX(MXDataView),
    PTR(Seq<char>),
}

impl View for RData {
    type V = RDataView;

    open spec fn view(&self) -> RDataView {
        match self {
            RData::A(ip) => RDataView::A(*ip),
            RData::NS(name) => RDataView::NS(name@),
            RData::CNAME(name) => RDataView::CNAME(name@),
            RData::AAAA(ip) => RDataView::AAAA(*ip),
            RData::SOA(soa) => RDataView::SOA(soa@),
            RData::MX(mx) => RDataView::MX(mx@),
            RData::PTR(name) => RDataView::PTR(name@),
        }
    }
}

impl RDataView {
    /// The record type whose payload this is.
    pub open spec fn rtype(self) -> ResourceType {
        match self {
            RDataView::A(_) => ResourceType::A,
            RDataView::NS(_) => ResourceType::NS,
            RDataView::CNAME(_) => ResourceType::CNAME,
            RDataView::AAAA(_) => ResourceType::AAAA,
            RDataView::SOA(_) => ResourceType::SOA,
            RDataView::MX(_) => ResourceType::MX,
            RDataView::PTR(_) => ResourceType::PTR,
        }
    }
}

impl RData {
    /// The payload of a record of type `rtype` that starts at `at`. The
    /// payloads of `WKS` and `SRV` records are not decoded.
    pub open spec fn parse_as(data: Seq<u8>, at: int, rtype: ResourceType) -> Parsed<RDataView> {
        match rtype {
            ResourceType::A => match Ipv4Address::parse(data, at) {
                Ok((ip, after)) => Ok((RDataView::A(ip), after)),
                Err(e) => Err(e),
            },
            ResourceType::AAAA => match Ipv6Address::parse(data, at) {
                Ok((ip, after)) => Ok((RDataView::AAAA(ip), after)),
                Err(e) => Err(e),
            },
            ResourceType::NS => match decoder::parse_name(data, at) {
                Ok((name, after)) => Ok((RDataView::NS(name), after)),
                Err(e) => Err(e),
            },
            ResourceType::CNAME => match decoder::parse_name(data, at) {
                Ok((name, after)) => Ok((RDataView::CNAME(name), after)),
                Err(e) => Err(e),
            },
            ResourceType::PTR => match decoder::parse_name(data, at) {
                Ok((name, after)) => Ok((RDataView::PTR(name), after)),
                Err(e) => Err(e),
            },
            ResourceType::MX => match MXData::parse(data, at) {
                Ok((mx, after)) => Ok((RDataView::MX(mx), after)),
                Err(e) => Err(e),
            },
            ResourceType::SOA => match SOAData::parse(data, at) {
                Ok((soa, after)) => Ok((RDataView::SOA(soa), after)),
                Err(e) => Err(e),
            },
            ResourceType::WKS => Err(DecodeError::UnsupportedType),
            ResourceType::SRV => Err(DecodeError::UnsupportedType),
        }
    }

    /// Reads the payload of a record of type `rtype`. A failed read leaves
    /// the cursor where it was.
    pub fn decode_as(d: &mut Decoder, rtype: ResourceType) -> (r: DecodeResult<RData>)
        ensures
            final(d).bytes() == old(d).bytes(),
            match RData::parse_as(old(d).bytes(), old(d).cursor() as int, rtype) {
                Ok((value, after)) => {
                    &&& r is Ok
                    &&& r->Ok_0@ == value
                    &&& value.rtype() == rtype
                    &&& final(d).cursor() == after
                },
                Err(e) => r == Err::<RData, DecodeError>(e) && final(d).cursor() == old(d).cursor(),
            },
    {
        match rtype {
            ResourceType::A => Ok(RData::A(Ipv4Address::decode(d)?)),
            ResourceType::AAAA => Ok(RData::AAAA(Ipv6Address::decode(d)?)),
            ResourceType::NS => Ok(RData::NS(d.read_name()?)),
            ResourceType::CNAME => Ok(RData::CNAME(d.read_name()?)),
            ResourceType::PTR => Ok(RData::PTR(d.read_name()?)),
            ResourceType::MX => Ok(RData::MX(MXData::decode(d)?)),
            ResourceType::SOA => Ok(RData::SOA(SOAData::decode(d)?)),
            ResourceType::WKS => Err(DecodeError::UnsupportedType),
            ResourceType::SRV => Err(DecodeError::UnsupportedType),
        }
    }
}

/// An answer, authority or additional record.
#[derive(Debug, PartialEq)]
pub struct Resource {
    pub name: String,
    pub rtype: ResourceType,
    pub rclass: ResourceClass,
    pub ttl: u32,
    pub rdata: RData,
}

/// What a `Resource` holds.
pub struct ResourceView {
    pub name: Seq<char>,
    pub rtype: ResourceType,
    pub rclass: ResourceClass,
    pub ttl: u32,
    pub rdata: RDataView,
}

impl View for Resource {
    type V = ResourceView;

    open spec fn view(&self) -> ResourceView {
        ResourceView {
            name: self.name@,
            rtype: self.rtype,
            rclass: self.rclass,
            ttl: self.ttl,
            rdata: self.rdata@,
        }
    }
}

impl ResourceView {
    /// The payload is of the variant that the declared type calls for.
    pub open spec fn wf(self) -> bool {
        self.rdata.rtype() == self.rtype
    }
}

impl Decodable for Resource {
    /// The name field, the type and class codes, a big-endian 32-bit time to
    /// live, a big-endian 16-bit payload length and the payload. The payload
    /// ends where its type makes it end; the length is read and not consulted.
    open spec fn parse(data: Seq<u8>, at: int) -> Parsed<ResourceView> {
        match decoder::parse_name(data, at) {
            Ok((name, a1)) => match ResourceType::parse(data, a1) {
                Ok((rtype, a2)) => match ResourceClass::parse(data, a2) {
                    Ok((rclass, a3)) => match decoder::parse_u32(data, a3) {
                        Ok((ttl, a4)) => match decoder::parse_u16(data, a4) {
                            Ok((_, a5)) => match RData::parse_as(data, a5, rtype) {
                                Ok((rdata, a6)) => Ok(
                                    (ResourceView { name, rtype, rclass, ttl, rdata }, a6),
                                ),
                                Err(e) => Err(e),
                            },
                            Err(e) => Err(e),
                        },
                        Err(e) => Err(e),
                    },
                    Err(e) => Err(e),
                },
                Err(e) => Err(e),
            },
            Err(e) => Err(e),
        }
    }

    fn decode(d: &mut Decoder) -> (r: DecodeResult<Resource>)
        ensures
            r is Ok ==> r->Ok_0@.wf(),
    {
        let mut cursor = *d;
        let name = cursor.read_name()?;
        let rtype = ResourceType::decode(&mut cursor)?;
        let rclass = ResourceClass::decode(&mut cursor)?;
        let ttl = cursor.read_u32()?;
        let _ = cursor.read_u16()?;
        let rdata = RData::decode_as(&mut cursor, rtype)?;
        *d = cursor;
        Ok(Resource { name, rtype, rclass, ttl, rdata })
    }
}

/// A type code that stands for no type fails a record with
/// `UnsupportedType`: no record comes out of it, whatever follows the code.
pub proof fn lemma_unknown_type_fails_record(data: Seq<u8>, at: int)
    requires
        decoder::parse_name(data, at) is Ok,
        decoder::parse_u16(data, decoder::parse_name(data, at)->Ok_0.1) is Ok,
        ResourceType::spec_from_code(
            decoder::parse_u16(data, decoder::parse_name(data, at)->Ok_0.1)->Ok_0.0,
        ) is None,
    ensures
        Resource::parse(data, at) == Err::<(ResourceView, int), DecodeError>(
            DecodeError::UnsupportedType,
        ),
{
}

/// A class code that stands for no class fails a record with
/// `UnsupportedClass`, provided that its type code stands for a type.
pub proof fn lemma_unknown_class_fails_record(data: Seq<u8>, at: int)
    requires
        decoder::parse_name(data, at) is Ok,
        ResourceType::parse(data, decoder::parse_name(data, at)->Ok_0.1) is Ok,
        decoder::parse_u16(
            data,
            ResourceType::parse(data, decoder::parse_name(data, at)->Ok_0.1)->Ok_0.1,
        ) is Ok,
        ResourceClass::spec_from_code(
            decoder::parse_u16(
                data,
                ResourceType::parse(data, decoder::parse_name(data, at)->Ok_0.1)->Ok_0.1,
            )->Ok_0.0,
        ) is None,
    ensures
        Resource::parse(data, at) == Err::<(ResourceView, int), DecodeError>(
            DecodeError::UnsupportedClass,
        ),
{
}

/// A record that decodes holds a payload of the variant that its type calls for.
pub proof fn lemma_parsed_resource_wf(data: Seq<u8>, at: int)
    ensures
        Resource::parse(data, at) matches Ok((record, _)) ==> record.wf(),
{
}

} // verus!
