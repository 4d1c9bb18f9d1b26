//! DNS messages: header flags, question records and the message codec.

use crate::binary::decoder;
use crate::binary::decoder::{Decodable, DecodeResult, Decoder, Parsed};
use crate::binary::encoder;
use crate::binary::encoder::{Encodable, EncodeResult, Encoder};
use crate::resource::{Resource, ResourceClass, ResourceType, ResourceView};
use vstd::prelude::*;
use vstd::slice::slice_subrange;

verus! {

/// Why a buffer could not be decoded.
#[derive(Clone, Copy, Debug, PartialEq, Eq, Structural)]
pub enum DecodeError {
    /// A field of fixed width, or the second byte of a compression pointer,
    /// lies past the end of the buffer.
    EndOfInput,
    /// A label sequence leaves the buffer, starts outside it or holds a byte
    /// that is no 7-bit character; or an operation code is above 2; or a
    /// response code is above 5.
    InvalidFormat,
    /// A type code stands for no record type, or for one whose payload is
    /// not decoded.
    UnsupportedType,
    /// A class code stands for no record class.
    UnsupportedClass,
}

impl DecodeError {
    /// The error in words.
    pub open spec fn spec_message(self) -> Seq<char> {
        match self {
            DecodeError::EndOfInput => "End of input"@,
            DecodeError::InvalidFormat => "Invalid format"@,
            DecodeError::UnsupportedType => "Unknown or Not Supported Resource Type"@,
            DecodeError::UnsupportedClass => "Unknown or Not Supported Resource Class"@,
        }
    }

    /// The error in words.
    pub fn message(&self) -> (text: &'static str)
        ensures
            text@ == self.spec_message(),
    {
        match self {
            DecodeError::EndOfInput => "End of input",
            DecodeError::InvalidFormat => "Invalid format",
            DecodeError::UnsupportedType => "Unknown or Not Supported Resource Type",
            DecodeError::UnsupportedClass => "Unknown or Not Supported Resource Class",
        }
    }
}

/// Whether a message asks or answers.
#[derive(Clone, Copy, Debug, PartialEq, Eq, Structural)]
pub enum QR {
    Query,
    Response,
}

impl QR {
    /// The header bit that stands for this direction.
    pub open spec fn spec_code(self) -> u8 {
        match self {
            QR::Query => 0,
            QR::Response => 1,
        }
    }

    /// The header bit that stands for this direction.
    #[verifier::when_used_as_spec(spec_code)]
    pub fn code(self) -> (c: u8)
        ensures
            c == self.spec_code(),
    {
        match self {
            QR::Query => 0,
            QR::Response => 1,
        }
    }
}

/// The kind of query.
#[derive(Clone, Copy, Debug, PartialEq, Eq, Structural)]
pub enum Operation {
    StandardQuery,
    InverseQuery,
    ServerStatusRequest,
}

impl Operation {
    /// The four-bit operation code.
    pub open spec fn spec_code(self) -> u8 {
        match self {
            Operation::StandardQuery => 0,
            Operation::InverseQuery => 1,
            Operation::ServerStatusRequest => 2,
        }
    }

    /// The operation that a four-bit code stands for, if there is one.
    pub open spec fn spec_from_code(code: u8) -> Option<Operation> {
        if code == 0 {
            Some(Operation::StandardQuery)
        } else if code == 1 {
            Some(Operation::InverseQuery)
        } else if code == 2 {
            Some(Operation::ServerStatusRequest)
        } else {
            None
        }
    }

    /// The four-bit operation code.
    #[verifier::when_used_as_spec(spec_code)]
    pub fn code(self) -> (c: u8)
        ensures
            c == self.spec_code(),
    {
        match self {
            Operation::StandardQuery => 0,
            Operation::InverseQuery => 1,
            Operation::ServerStatusRequest => 2,
        }
    }

    /// Looks an operation code up; only 0, 1 and 2 stand for an operation.
    pub fn from_code(code: u8) -> (r: Result<Operation, DecodeError>)
        ensures
            match Operation::spec_from_code(code) {
                Some(op) => r == Ok::<Operation, DecodeError>(op),
                None => r == Err::<Operation, DecodeError>(DecodeError::InvalidFormat),
            },
    {
        match code {
            0 => Ok(Operation::StandardQuery),
            1 => Ok(Operation::InverseQuery),
            2 => Ok(Operation::ServerStatusRequest),
            _ => Err(DecodeError::InvalidFormat),
        }
    }
}

/// How a server answered.
#[derive(Clone, Copy, Debug, PartialEq, Eq, Structural)]
pub enum ResponseCode {
    NoError,
    FormatError,
    ServerError,
    NameError,
    NotImplementedError,
    RequestDenied,
}

impl ResponseCode {
    /// The four-bit response code.
    pub open spec fn spec_code(self) -> u8 {
        match self {
            ResponseCode::NoError => 0,
            ResponseCode::FormatError => 1,
            ResponseCode::ServerError => 2,
            ResponseCode::NameError => 3,
            ResponseCode::NotImplementedError => 4,
            ResponseCode::RequestDenied => 5,
        }
    }

    /// The response that a four-bit code stands for, if there is one.
    pub open spec fn spec_from_code(code: u8) -> Option<ResponseCode> {
        if code == 0 {
            Some(ResponseCode::NoError)
        } else if code == 1 {
            Some(ResponseCode::FormatError)
        } else if code == 2 {
            Some(ResponseCode::ServerError)
        } else if code == 3 {
            Some(ResponseCode::NameError)
        } else if code == 4 {
            Some(ResponseCode::NotImplementedError)
        } else if code == 5 {
            Some(ResponseCode::RequestDenied)
        } else {
            None
        }
    }

    /// The four-bit response code.
    #[verifier::when_used_as_spec(spec_code)]
    pub fn code(self) -> (c: u8)
        ensures
            c == self.spec_code(),
    {
        match self {
            ResponseCode::NoError => 0,
            ResponseCode::FormatError => 1,
            ResponseCode::ServerError => 2,
            ResponseCode::NameError => 3,
            ResponseCode::NotImplementedError => 4,
            ResponseCode::RequestDenied => 5,
        }
    }

    /// Looks a response code up; only 0 to 5 stand for a response.
    pub fn from_code(code: u8) -> (r: Result<ResponseCode, DecodeError>)
        ensures
            match ResponseCode::spec_from_code(code) {
                Some(rc) => r == Ok::<ResponseCode, DecodeError>(rc),
                None => r == Err::<ResponseCode, DecodeError>(DecodeError::InvalidFormat),
            },
    {
        match code {
            0 => Ok(ResponseCode::NoError),
            1 => Ok(ResponseCode::FormatError),
            2 => Ok(ResponseCode::ServerError),
            3 => Ok(ResponseCode::NameError),
            4 => Ok(ResponseCode::NotImplementedError),
            5 => Ok(ResponseCode::RequestDenied),
            _ => Err(DecodeError::InvalidFormat),
        }
    }
}

/// The flag bits of a message header.
#[derive(Clone, Copy, Debug, PartialEq, Eq, Structural)]
pub struct Flag {
    pub query_or_response: QR,
    pub operation: Operation,
    pub authorative: bool,
    pub truncation: bool,
    pub recursion_desired: bool,
    pub recursion_available: bool,
    pub response_code: ResponseCode,
}

impl View for Flag {
    type V = Flag;

    open spec fn view(&self) -> Flag {
        *self
    }
}

impl Flag {
    /// The first flag byte as it is sent: direction in bit 7, operation in
    /// bits 6 to 3, recursion desired in bit 0, the other bits clear.
    pub open spec fn first_byte(self) -> u8 {
        (self.query_or_response.spec_code() * 0x80 + self.operation.spec_code() * 8 + if self.recursion_desired {
            1int
        } else {
            0int
        }) as u8
    }

    /// The two flag bytes as they are sent. The second is always zero: a
    /// message that is sent carries no response code.
    pub open spec fn wire(self) -> Seq<u8> {
        seq![self.first_byte(), 0u8]
    }

    /// The flags hold nothing but what `wire` carries.
    pub open spec fn is_plain(self) -> bool {
        &&& !self.authorative
        &&& !self.truncation
        &&& !self.recursion_available
        &&& self.response_code == ResponseCode::NoError
    }
}

impl Encodable for Flag {
    open spec fn wire_form(&self) -> Option<Seq<u8>> {
        Some(self.wire())
    }

    fn encode(&self, encoder: &mut Encoder) -> (r: EncodeResult<()>) {
        let qr = self.query_or_response.code();
        let op = self.operation.code();
        let rd: u8 = if self.recursion_desired {
            1
        } else {
            0
        };
        assert((qr << 7) | (op << 3) | rd == qr * 0x80 + op * 8 + rd) by (bit_vector)
            requires
                qr <= 1,
                op <= 2,
                rd <= 1,
        ;
        let msb = (qr << 7) | (op << 3) | rd;
        let lsb = 0u8;
        encoder.emit_u8(msb)?;
        encoder.emit_u8(lsb)
    }
}

impl Decodable for Flag {
    /// Two bytes. The first holds the direction in bit 7, the operation code
    /// in bits 6 to 3, then authoritative, truncated and recursion desired in
    /// bits 2, 1 and 0. The second holds recursion available in bit 7 and the
    /// response code in bits 3 to 0; its bits 6 to 4 are not consulted. An
    /// operation code is judged before the second byte is read.
    open spec fn parse(data: Seq<u8>, at: int) -> Parsed<Flag> {
        match decoder::parse_u8(data, at) {
            Ok((msb, a1)) => match Operation::spec_from_code((msb / 8 % 0x10) as u8) {
                Some(operation) => match decoder::parse_u8(data, a1) {
                    Ok((lsb, a2)) => match ResponseCode::spec_from_code((lsb % 0x10) as u8) {
                        Some(response_code) => Ok(
                            (
                                Flag {
                                    query_or_response: if msb >= 0x80 {
                                        QR::Response
                                    } else {
                                        QR::Query
                                    },
                                    operation,
                                    authorative: msb / 4 % 2 == 1,
                                    truncation: msb / 2 % 2 == 1,
                                    recursion_desired: msb % 2 == 1,
                                    recursion_available: lsb >= 0x80,
                                    response_code,
                                },
                                a2,
                            ),
                        ),
                        None => Err(DecodeError::InvalidFormat),
                    },
                    Err(e) => Err(e),
                },
                None => Err(DecodeError::InvalidFormat),
            },
            Err(e) => Err(e),
        }
    }

    fn decode(d: &mut Decoder) -> (r: DecodeResult<Flag>) {
        let mut cursor = *d;
        let msb = cursor.read_u8()?;
        assert((msb >> 3) & 0x0f == msb / 8 % 0x10 && (msb & 0x80 == 0x80) == (msb >= 0x80) && (msb
            & 0x04 == 0x04) == (msb / 4 % 2 == 1) && (msb & 0x02 == 0x02) == (msb / 2 % 2 == 1) && (
        msb & 0x01 == 0x01) == (msb % 2 == 1)) by (bit_vector);
        let operation = Operation::from_code((msb >> 3) & 0x0f)?;
        let lsb = cursor.read_u8()?;
        assert(lsb & 0x0f == lsb % 0x10 && (lsb & 0x80 == 0x80) == (lsb >= 0x80)) by (bit_vector);
        let response_code = ResponseCode::from_code(lsb & 0x0f)?;
        *d = cursor;
        Ok(
            Flag {
                query_or_response: if msb & 0x80 == 0x80 {
                    QR::Response
                } else {
                    QR::Query
                },
                operation,
                authorative: msb & 0x04 == 0x04,
                truncation: msb & 0x02 == 0x02,
                recursion_desired: msb & 0x01 == 0x01,
                recursion_available: lsb & 0x80 == 0x80,
                response_code,
            },
        )
    }
}

/// The fixed part of a message: the identity, the flags and the number of
/// records in each of the four sections.
#[derive(Clone, Copy, Debug, PartialEq, Eq, Structural)]
pub struct Header {
    pub identity: u16,
    pub flag: Flag,
    pub question_count: u16,
    pub answer_pr_count: u16,
    pub authorative_pr_count: u16,
    pub additional_pr_count: u16,
}

impl View for Header {
    type V = Header;

    open spec fn view(&self) -> Header {
        *self
    }
}

impl Header {
    /// The twelve header bytes as they are sent.
    pub open spec fn wire(self) -> Seq<u8> {
        encoder::be16(self.identity) + self.flag.wire() + encoder::be16(self.question_count)
            + encoder::be16(self.answer_pr_count) + encoder::be16(self.authorative_pr_count)
            + encoder::be16(self.additional_pr_count)
    }
}

impl Encodable for Header {
    open spec fn wire_form(&self) -> Option<Seq<u8>> {
        Some(self.wire())
    }

    fn encode(&self, encoder: &mut Encoder) -> (r: EncodeResult<()>) {
        encoder.emit_u16(self.identity)?;
        self.flag.encode(encoder)?;
        encoder.emit_u16(self.question_count)?;
        encoder.emit_u16(self.answer_pr_count)?;
        encoder.emit_u16(self.authorative_pr_count)?;
        encoder.emit_u16(self.additional_pr_count)
    }
}

impl Decodable for Header {
    /// A big-endian 16-bit identity, the two flag bytes, and four big-endian
    /// 16-bit counts: questions, answers, authority records and additional
    /// records.
    open spec fn parse(data: Seq<u8>, at: int) -> Parsed<Header> {
        match decoder::parse_u16(data, at) {
            Ok((identity, a1)) => match Flag::parse(data, a1) {
                Ok((flag, a2)) => if a2 + 8 <= data.len() {
                    Ok(
                        (
                            Header {
                                identity,
                                flag,
                                question_count: decoder::word_at(data, a2),
                                answer_pr_count: decoder::word_at(data, a2 + 2),
                                authorative_pr_count: decoder::word_at(data, a2 + 4),
                                additional_pr_count: decoder::word_at(data, a2 + 6),
                            },
                            a2 + 8,
                        ),
                    )
                } else {
                    Err(DecodeError::EndOfInput)
                },
                Err(e) => Err(e),
            },
            Err(e) => Err(e),
        }
    }

    fn decode(d: &mut Decoder) -> (r: DecodeResult<Header>) {
        let mut cursor = *d;
        let identity = cursor.read_u16()?;
        let flag = Flag::decode(&mut cursor)?;
        let question_count = cursor.read_u16()?;
        let answer_pr_count = cursor.read_u16()?;
        let authorative_pr_count = cursor.read_u16()?;
        let additional_pr_count = cursor.read_u16()?;
        *d = cursor;
        Ok(
            Header {
                identity,
                flag,
                question_count,
                answer_pr_count,
                authorative_pr_count,
                additional_pr_count,
            },
        )
    }
}

/// The byte that separates the labels of a written domain name.
pub const DOT: u8 = 0x2E;

/// How many bytes stand before the first dot of `name`: all of them if it has
/// none.
pub open spec fn label_len(name: Seq<u8>) -> nat
    decreases name.len(),
{
    if name.len() == 0 || name[0] == DOT {
        0
    } else {
        1 + label_len(name.drop_first())
    }
}

/// The labels of a written domain name: the runs of bytes between its dots.
pub open spec fn split_labels(name: Seq<u8>) -> Seq<Seq<u8>>
    decreases name.len(),
{
    let n = label_len(name) as int;
    if n < name.len() {
        seq![name.take(n)] + split_labels(name.skip(n + 1))
    } else {
        seq![name]
    }
}

/// One label as it is sent: a length byte, then the label. A length over 255
/// is cut to its low eight bits.
pub open spec fn label_wire(label: Seq<u8>) -> Seq<u8> {
    seq![(label.len() % 0x100) as u8] + label
}

/// A written domain name as it is sent: each label in turn, then a zero byte.
/// Nothing is compressed.
pub open spec fn name_wire(name: Seq<u8>) -> Seq<u8>
    decreases name.len(),
{
    let n = label_len(name) as int;
    if n < name.len() {
        label_wire(name.take(n)) + name_wire(name.skip(n + 1))
    } else {
        label_wire(name) + seq![0u8]
    }
}

/// `n` bytes without a dot, then a dot or the end: the first label has `n` bytes.
pub proof fn lemma_label_len(name: Seq<u8>, n: int)
    requires
        0 <= n <= name.len(),
        forall|j: int| 0 <= j < n ==> name[j] != DOT,
        n < name.len() ==> name[n] == DOT,
    ensures
        label_len(name) == n,
    decreases n,
{
    if n > 0 {
        lemma_label_len(name.drop_first(), n - 1);
    }
}

/// Where the label that starts at `start` ends: at the next dot, or at the end
/// of `name`. A `start` past the end of `name` is returned as it is.
pub fn label_end(name: &[u8], start: usize) -> (end: usize)
    ensures
        start <= end,
        start <= name@.len() ==> end <= name@.len(),
        start <= name@.len() ==> end - start == label_len(name@.skip(start as int)),
        start > name@.len() ==> end == start,
        end < name@.len() ==> name@[end as int] == DOT,
{
    let n = name.len();
    let mut end = start;
    while end < n && name[end] != DOT
        invariant
            n == name@.len(),
            start <= end,
            start <= n ==> end <= n,
            start > n ==> end == start,
            forall|j: int| start <= j < end ==> name@[j] != DOT,
        decreases n - end,
    {
        end = end + 1;
    }
    proof {
        if start <= n {
            lemma_label_len(name@.skip(start as int), end - start);
        }
    }
    end
}

/// Where each label of `name` starts and ends, in the order of the labels.
pub fn label_bounds(name: &[u8]) -> (bounds: Vec<(usize, usize)>)
    ensures
        bounds@.len() == split_labels(name@).len(),
        forall|i: int|
            0 <= i < bounds@.len() ==> {
                &&& (#[trigger] bounds@[i]).0 <= bounds@[i].1 <= name@.len()
                &&& name@.subrange(bounds@[i].0 as int, bounds@[i].1 as int) == split_labels(
                    name@,
                )[i]
            },
{
    let n = name.len();
    let mut bounds: Vec<(usize, usize)> = Vec::new();
    let mut start: usize = 0;
    let mut end = label_end(name, start);
    let ghost mut done: Seq<Seq<u8>> = Seq::empty();
    assert(name@.skip(0) == name@);
    while end < n
        invariant
            n == name@.len(),
            start <= end <= n,
            end - start == label_len(name@.skip(start as int)),
            split_labels(name@) == done + split_labels(name@.skip(start as int)),
            bounds@.len() == done.len(),
            forall|i: int|
                0 <= i < bounds@.len() ==> {
                    &&& (#[trigger] bounds@[i]).0 <= bounds@[i].1 <= n
                    &&& name@.subrange(bounds@[i].0 as int, bounds@[i].1 as int) == done[i]
                },
        decreases n - start,
    {
        proof {
            let tail = name@.skip(start as int);
            let label = name@.subrange(start as int, end as int);
            assert(tail.take(end - start) == label);
            assert(tail.skip(end - start + 1) == name@.skip(end + 1));
            done = done.push(label);
        }
        bounds.push((start, end));
        start = end + 1;
        end = label_end(name, start);
    }
    proof {
        done = done.push(name@.subrange(start as int, n as int));
    }
    bounds.push((start, n));
    bounds
}

/// One question of a message.
#[derive(Debug, PartialEq)]
pub struct QuestionRecord {
    pub domain_name: String,
    pub query_type: ResourceType,
    pub query_class: ResourceClass,
}

/// What a `QuestionRecord` holds.
pub struct QuestionRecordView {
    pub domain_name: Seq<char>,
    pub query_type: ResourceType,
    pub query_class: ResourceClass,
}

impl View for QuestionRecord {
    type V = QuestionRecordView;

    open spec fn view(&self) -> QuestionRecordView {
        QuestionRecordView {
            domain_name: self.domain_name@,
            query_type: self.query_type,
            query_class: self.query_class,
        }
    }
}

impl QuestionRecordView {
    /// The question as it is sent: the name, then type and class codes.
    pub open spec fn wire(self) -> Seq<u8> {
        name_wire(vstd::utf8::encode_utf8(self.domain_name)) + encoder::be16(
            self.query_type.spec_code(),
        ) + encoder::be16(self.query_class.spec_code())
    }
}

impl Encodable for QuestionRecord {
    open spec fn wire_form(&self) -> Option<Seq<u8>> {
        Some(self@.wire())
    }

    fn encode(&self, encoder: &mut Encoder) -> (r: EncodeResult<()>) {
        let name = self.domain_name.as_str().as_bytes();
        let n = name.len();
        let mut start: usize = 0;
        let mut end = label_end(name, start);
        assert(name@.skip(0) == name@);
        while end < n
            invariant
                n == name@.len(),
                start <= end <= n,
                end - start == label_len(name@.skip(start as int)),
                encoder@ + name_wire(name@.skip(start as int)) == old(encoder)@ + name_wire(name@),
            decreases n - start,
        {
            assert(name@.skip(start as int).skip(end - start + 1) == name@.skip(end + 1));
            encoder.emit_u8(((end - start) % 0x100) as u8)?;
            encoder.emit_bytes(slice_subrange(name, start, end))?;
            start = end + 1;
            end = label_end(name, start);
        }
        let ghost tail = name@.skip(start as int);
        let ghost before = encoder@;
        encoder.emit_u8(((n - start) % 0x100) as u8)?;
        encoder.emit_bytes(slice_subrange(name, start, n))?;
        encoder.emit_u8(0)?;
        assert(encoder@ == before + name_wire(tail));
        encoder.emit_u16(self.query_type.code())?;
        encoder.emit_u16(self.query_class.code())
    }
}

impl Decodable for QuestionRecord {
    /// The name field, then the type and class codes.
    open spec fn parse(data: Seq<u8>, at: int) -> Parsed<QuestionRecordView> {
        match decoder::parse_name(data, at) {
            Ok((domain_name, a1)) => match ResourceType::parse(data, a1) {
                Ok((query_type, a2)) => match ResourceClass::parse(data, a2) {
                    Ok((query_class, a3)) => Ok(
                        (QuestionRecordView { domain_name, query_type, query_class }, a3),
                    ),
                    Err(e) => Err(e),
                },
                Err(e) => Err(e),
            },
            Err(e) => Err(e),
        }
    }

    fn decode(d: &mut Decoder) -> (r: DecodeResult<QuestionRecord>) {
        let mut cursor = *d;
        let domain_name = cursor.read_name()?;
        let query_type = ResourceType::decode(&mut cursor)?;
        let query_class = ResourceClass::decode(&mut cursor)?;
        *d = cursor;
        Ok(QuestionRecord { domain_name, query_type, query_class })
    }
}

/// The questions as they are sent, one after the other.
pub open spec fn questions_wire(questions: Seq<QuestionRecordView>) -> Seq<u8>
    decreases questions.len(),
{
    if questions.len() == 0 {
        Seq::empty()
    } else {
        questions[0].wire() + questions_wire(questions.drop_first())
    }
}

/// A DNS message: the header and the four sections.
#[derive(Debug, PartialEq)]
pub struct Message {
    pub identity: u16,
    pub flag: Flag,
    pub question_count: u16,
    pub answer_pr_count: u16,
    pub authorative_pr_count: u16,
    pub additional_pr_count: u16,
    pub question_record: Vec<QuestionRecord>,
    pub answer_record: Vec<Resource>,
    pub authorative_record: Vec<Resource>,
    pub additional_record: Vec<Resource>,
}

/// What a `Message` holds.
pub struct MessageView {
    pub identity: u16,
    pub flag: Flag,
    pub question_count: u16,
    pub answer_pr_count: u16,
    pub authorative_pr_count: u16,
    pub additional_pr_count: u16,
    pub question_record: Seq<QuestionRecordView>,
    pub answer_record: Seq<ResourceView>,
    pub authorative_record: Seq<ResourceView>,
    pub additional_record: Seq<ResourceView>,
}

impl View for Message {
    type V = MessageView;

    open spec fn view(&self) -> MessageView {
        MessageView {
            identity: self.identity,
            flag: self.flag,
            question_count: self.question_count,
            answer_pr_count: self.answer_pr_count,
            authorative_pr_count: self.authorative_pr_count,
            additional_pr_count: self.additional_pr_count,
            question_record: self.question_record@.map_values(|q: QuestionRecord| q@),
            answer_record: self.answer_record@.map_values(|r: Resource| r@),
            authorative_record: self.authorative_record@.map_values(|r: Resource| r@),
            additional_record: self.additional_record@.map_values(|r: Resource| r@),
        }
    }
}

impl MessageView {
    /// Each count is the length of its section, and each record's payload is
    /// of the variant that its type calls for.
    pub open spec fn wf(self) -> bool {
        &&& self.question_count == self.question_record.len()
        &&& self.answer_pr_count == self.answer_record.len()
        &&& self.authorative_pr_count == self.authorative_record.len()
        &&& self.additional_pr_count == self.additional_record.len()
        &&& forall|i: int| 0 <= i < self.answer_record.len() ==> (#[trigger] self.answer_record[i]).wf()
        &&& forall|i: int|
            0 <= i < self.authorative_record.len() ==> (#[trigger] self.authorative_record[i]).wf()
        &&& forall|i: int|
            0 <= i < self.additional_record.len() ==> (#[trigger] self.additional_record[i]).wf()
    }

    /// A message as it is built for sending: questions only, and flags that
    /// hold nothing but what is sent.
    pub open spec fn is_query(self) -> bool {
        &&& self.wf()
        &&& self.flag.is_plain()
        &&& self.answer_pr_count == 0
        &&& self.authorative_pr_count == 0
        &&& self.additional_pr_count == 0
    }

    /// The fixed part of the message.
    pub open spec fn header(self) -> Header {
        Header {
            identity: self.identity,
            flag: self.flag,
            question_count: self.question_count,
            answer_pr_count: self.answer_pr_count,
            authorative_pr_count: self.authorative_pr_count,
            additional_pr_count: self.additional_pr_count,
        }
    }

    /// The message as it is sent: the header, then the questions. The other
    /// sections are not sent.
    pub open spec fn wire(self) -> Seq<u8> {
        self.header().wire() + questions_wire(self.question_record)
    }
}

impl Encodable for Message {
    open spec fn wire_form(&self) -> Option<Seq<u8>> {
        Some(self@.wire())
    }

    fn encode(&self, encoder: &mut Encoder) -> (r: EncodeResult<()>) {
        self.header().encode(encoder)?;
        let ghost questions = self@.question_record;
        let n = self.question_record.len();
        let mut i: usize = 0;
        assert(questions.skip(0) == questions);
        while i < n
            invariant
                i <= n,
                n == self.question_record@.len(),
                questions == self@.question_record,
                encoder@ + questions_wire(questions.skip(i as int)) == old(encoder)@
                    + self@.wire(),
            decreases n - i,
        {
            assert(questions.skip(i as int).drop_first() == questions.skip(i + 1));
            self.question_record[i].encode(encoder)?;
            i = i + 1;
        }
        Ok(())
    }
}

impl Message {
    /// The fixed part of the message.
    pub fn header(&self) -> (h: Header)
        ensures
            h == self@.header(),
    {
        Header {
            identity: self.identity,
            flag: self.flag,
            question_count: self.question_count,
            answer_pr_count: self.answer_pr_count,
            authorative_pr_count: self.authorative_pr_count,
            additional_pr_count: self.additional_pr_count,
        }
    }

    /// The message that a header and four sections make.
    pub open spec fn assemble(
        header: Header,
        question_record: Seq<QuestionRecordView>,
        answer_record: Seq<ResourceView>,
        authorative_record: Seq<ResourceView>,
        additional_record: Seq<ResourceView>,
    ) -> MessageView {
        MessageView {
            identity: header.identity,
            flag: header.flag,
            question_count: header.question_count,
            answer_pr_count: header.answer_pr_count,
            authorative_pr_count: header.authorative_pr_count,
            additional_pr_count: header.additional_pr_count,
            question_record,
            answer_record,
            authorative_record,
            additional_record,
        }
    }

    /// What a buffer holds, read from its first byte: the header, then as
    /// many questions, answers, authority records and additional records as
    /// its counts say, in that order. The first field that cannot be read
    /// decides the error. Bytes after the last record are not consulted.
    #[verifier::opaque]
    pub open spec fn parse(data: Seq<u8>) -> Result<MessageView, DecodeError> {
        match Header::parse(data, 0) {
            Ok((header, a1)) => match decoder::parse_many::<QuestionRecord>(
                data,
                a1,
                header.question_count as nat,
            ) {
                Ok((question_record, a2)) => match decoder::parse_many::<Resource>(
                    data,
                    a2,
                    header.answer_pr_count as nat,
                ) {
                    Ok((answer_record, a3)) => match decoder::parse_many::<Resource>(
                        data,
                        a3,
                        header.authorative_pr_count as nat,
                    ) {
                        Ok((authorative_record, a4)) => match decoder::parse_many::<Resource>(
                            data,
                            a4,
                            header.additional_pr_count as nat,
                        ) {
                            Ok((additional_record, _)) => Ok(
                                Message::assemble(
                                    header,
                                    question_record,
                                    answer_record,
                                    authorative_record,
                                    additional_record,
                                ),
                            ),
                            Err(e) => Err(e),
                        },
                        Err(e) => Err(e),
                    },
                    Err(e) => Err(e),
                },
                Err(e) => Err(e),
            },
            Err(e) => Err(e),
        }
    }

    /// Decodes a whole message. No part of a message comes out of a buffer
    /// that fails to decode.
    pub fn decode(data: &[u8]) -> (r: Result<Message, DecodeError>)
        ensures
            match Message::parse(data@) {
                Ok(m) => r is Ok && r->Ok_0@ == m && m.wf(),
                Err(e) => r == Err::<Message, DecodeError>(e),
            },
    {
        reveal(Message::parse);
        let mut d = Decoder::new(data);
        let header = Header::decode(&mut d)?;
        let question_record = decoder::decode_many::<QuestionRecord>(&mut d, header.question_count)?;
        let answer_record = decoder::decode_many::<Resource>(&mut d, header.answer_pr_count)?;
        let authorative_record = decoder::decode_many::<Resource>(
            &mut d,
            header.authorative_pr_count,
        )?;
        let additional_record = decoder::decode_many::<Resource>(
            &mut d,
            header.additional_pr_count,
        )?;
        proof {
            lemma_parsed_message_wf(data@);
        }
        Ok(
            Message {
                identity: header.identity,
                flag: header.flag,
                question_count: header.question_count,
                answer_pr_count: header.answer_pr_count,
                authorative_pr_count: header.authorative_pr_count,
                additional_pr_count: header.additional_pr_count,
                question_record,
                answer_record,
                authorative_record,
                additional_record,
            },
        )
    }

    /// What `new` builds from its arguments.
    pub open spec fn query(
        id: u16,
        operation: Operation,
        recursive: bool,
        names: Seq<Seq<char>>,
        query_type: ResourceType,
    ) -> MessageView {
        MessageView {
            identity: id,
            flag: Flag {
                query_or_response: QR::Query,
                operation,
                authorative: false,
                truncation: false,
                recursion_desired: recursive,
                recursion_available: false,
                response_code: ResponseCode::NoError,
            },
            question_count: (names.len() % 0x1_0000) as u16,
            answer_pr_count: 0,
            authorative_pr_count: 0,
            additional_pr_count: 0,
            question_record: names.map_values(
                |name: Seq<char>|
                    QuestionRecordView {
                        domain_name: name,
                        query_type,
                        query_class: ResourceClass::IN,
                    },
            ),
            answer_record: Seq::empty(),
            authorative_record: Seq::empty(),
            additional_record: Seq::empty(),
        }
    }

    /// A query with one question of type `query_type` and class `IN` for each
    /// of `names`, in their order. The question count in the header is the
    /// number of names cut to sixteen bits.
    pub fn new(
        id: u16,
        operation: Operation,
        recursive: bool,
        names: Vec<String>,
        query_type: ResourceType,
    ) -> (m: Message)
        ensures
            m@ == Message::query(id, operation, recursive, names.deep_view(), query_type),
            names@.len() <= 0xFFFF ==> m@.is_query(),
    {
        let flag = Flag {
            query_or_response: QR::Query,
            operation,
            authorative: false,
            truncation: false,
            recursion_desired: recursive,
            recursion_available: false,
            response_code: ResponseCode::NoError,
        };
        let ghost expected = Message::query(
            id,
            operation,
            recursive,
            names.deep_view(),
            query_type,
        );
        let mut records: Vec<QuestionRecord> = Vec::new();
        let names_count = (names.len() % 0x1_0000) as u16;
        let n = names.len();
        let mut i: usize = 0;
        while i < n
            invariant
                i <= n,
                n == names@.len(),
                expected == Message::query(id, operation, recursive, names.deep_view(), query_type),
                records@.map_values(|q: QuestionRecord| q@) == expected.question_record.take(
                    i as int,
                ),
            decreases n - i,
        {
            let record = QuestionRecord {
                domain_name: names[i].clone(),
                query_type,
                query_class: ResourceClass::IN,
            };
            assert(records@.push(record).map_values(|q: QuestionRecord| q@) == records@.map_values(
                |q: QuestionRecord| q@,
            ).push(record@));
            records.push(record);
            i = i + 1;
        }
        let m = Message {
            identity: id,
            flag,
            question_count: names_count,
            answer_pr_count: 0,
            authorative_pr_count: 0,
            additional_pr_count: 0,
            question_record: records,
            answer_record: Vec::new(),
            authorative_record: Vec::new(),
            additional_record: Vec::new(),
        };
        assert(expected.question_record.take(n as int) == expected.question_record);
        assert(m@.additional_record == Seq::<ResourceView>::empty());
        m
    }
}

/// A type code that stands for no type fails a question with
/// `UnsupportedType`: no question comes out of it, whatever follows the code.
pub proof fn lemma_unknown_type_fails_question(data: Seq<u8>, at: int)
    requires
        decoder::parse_name(data, at) is Ok,
        decoder::parse_u16(data, decoder::parse_name(data, at)->Ok_0.1) is Ok,
        ResourceType::spec_from_code(
            decoder::parse_u16(data, decoder::parse_name(data, at)->Ok_0.1)->Ok_0.0,
        ) is None,
    ensures
        QuestionRecord::parse(data, at) == Err::<(QuestionRecordView, int), DecodeError>(
            DecodeError::UnsupportedType,
        ),
{
}

/// The error of the first question that fails is the error of the message:
/// no message comes out without it.
pub proof fn lemma_failed_question_fails_message(data: Seq<u8>, count: nat)
    requires
        Header::parse(data, 0) is Ok,
        count < Header::parse(data, 0)->Ok_0.0.question_count,
        decoder::parse_many::<QuestionRecord>(data, 12, count) is Ok,
        QuestionRecord::parse(
            data,
            decoder::parse_many::<QuestionRecord>(data, 12, count)->Ok_0.1,
        ) is Err,
    ensures
        Message::parse(data) == Err::<MessageView, DecodeError>(
            QuestionRecord::parse(
                data,
                decoder::parse_many::<QuestionRecord>(data, 12, count)->Ok_0.1,
            )->Err_0,
        ),
{
    reveal(Message::parse);
    let asked = Header::parse(data, 0)->Ok_0.0.question_count as nat;
    decoder::lemma_first_failure_decides::<QuestionRecord>(data, 12, count, asked);
}

/// Every record of a section that decodes holds a payload of the variant
/// that its type calls for.
pub proof fn lemma_parsed_resources_wf(data: Seq<u8>, at: int, count: nat)
    ensures
        decoder::parse_many::<Resource>(data, at, count) matches Ok((records, _)) ==> forall|
            i: int,
        |
            0 <= i < records.len() ==> (#[trigger] records[i]).wf(),
    decreases count,
{
    if count > 0 {
        match Resource::parse(data, at) {
            Ok((_, next)) => lemma_parsed_resources_wf(data, next, (count - 1) as nat),
            Err(_) => {},
        }
    }
}

/// A message that decodes is well formed: its counts are the lengths of its
/// sections, and no record holds a payload of another type's variant.
pub proof fn lemma_parsed_message_wf(data: Seq<u8>)
    ensures
        Message::parse(data) matches Ok(m) ==> m.wf(),
{
    reveal(Message::parse);
    if let Ok(m) = Message::parse(data) {
        let a1 = Header::parse(data, 0)->Ok_0.1;
        let a2 = decoder::parse_many::<QuestionRecord>(data, a1, m.question_count as nat)->Ok_0.1;
        let a3 = decoder::parse_many::<Resource>(data, a2, m.answer_pr_count as nat)->Ok_0.1;
        let a4 = decoder::parse_many::<Resource>(data, a3, m.authorative_pr_count as nat)->Ok_0.1;
        decoder::lemma_parse_many_len::<QuestionRecord>(data, a1, m.question_count as nat);
        decoder::lemma_parse_many_len::<Resource>(data, a2, m.answer_pr_count as nat);
        decoder::lemma_parse_many_len::<Resource>(data, a3, m.authorative_pr_count as nat);
        decoder::lemma_parse_many_len::<Resource>(data, a4, m.additional_pr_count as nat);
        lemma_parsed_resources_wf(data, a2, m.answer_pr_count as nat);
        lemma_parsed_resources_wf(data, a3, m.authorative_pr_count as nat);
        lemma_parsed_resources_wf(data, a4, m.additional_pr_count as nat);
    }
}

} // verus!
