//! Queries over names that are known when the program is built.

use crate::resource::{ResourceClass, ResourceType};
use vstd::prelude::*;

verus! {

/// A query: the header fields and the questions.
pub struct Query {
    pub identity: u16,
    pub flag: QueryFlag,
    pub question_count: u16,
    pub answer_pr_count: u16,
    pub authorative_pr_count: u16,
    pub additional_pr_count: u16,
    pub question_record: Vec<QuestionRecord>,
}

/// The flag bits of a query header.
pub struct QueryFlag {
    pub query_or_response: QR,
    pub operation: Operation,
    pub authorative: bool,
    pub truncation: bool,
    pub recursion_disired: bool,
    pub recursion_available: bool,
    pub response_code: ResponseCode,
}

impl QueryFlag {
    /// The first flag byte as it is sent: direction in bit 7, operation in
    /// bits 6 to 3, recursion desired in bit 0, the other bits clear.
    pub open spec fn first_byte(&self) -> u8 {
        (self.query_or_response.spec_code() * 0x80 + self.operation.spec_code() * 8 + if self.recursion_disired {
            1int
        } else {
            0int
        }) as u8
    }

    /// The two flag bytes as they are sent. The second is always zero: a
    /// query carries no response code.
    pub fn encode(&self) -> (bytes: Vec<u8>)
        ensures
            bytes@ == seq![self.first_byte(), 0u8],
    {
        let qr = self.query_or_response.code();
        let op = self.operation.code();
        let rd: u8 = if self.recursion_disired {
            1
        } else {
            0
        };
        assert((qr << 7) | (op << 3) | rd == qr * 0x80 + op * 8 + rd) by (bit_vector)
            requires
                qr <= 1,
                op <= 2,
                rd <= 1,
        ;
        let msb = (qr << 7) | (op << 3) | rd;
        let lsb = 0u8;
        let mut bytes = Vec::new();
        bytes.push(msb);
        bytes.push(lsb);
        bytes
    }
}

/// Whether a message asks or answers.
#[derive(Clone, Copy, Debug, PartialEq, Eq, Structural)]
pub enum QR {
    Query,
    Response,
}

impl QR {
    /// The header bit that stands for this direction.
    pub open spec fn spec_code(self) -> u8 {
        match self {
            QR::Query => 0,
            QR::Response => 1,
        }
    }

    /// The header bit that stands for this direction.
    #[verifier::when_used_as_spec(spec_code)]
    pub fn code(self) -> (c: u8)
        ensures
            c == self.spec_code(),
    {
        match self {
            QR::Query => 0,
            QR::Response => 1,
        }
    }
}

/// The kind of query.
#[derive(Clone, Copy, Debug, PartialEq, Eq, Structural)]
pub enum Operation {
    StandardQuery,
    InverseQuery,
    ServerStatusRequest,
}

impl Operation {
    /// The four-bit operation code.
    pub open spec fn spec_code(self) -> u8 {
        match self {
            Operation::StandardQuery => 0,
            Operation::InverseQuery => 1,
            Operation::ServerStatusRequest => 2,
        }
    }

    /// The four-bit operation code.
    #[verifier::when_used_as_spec(spec_code)]
    pub fn code(self) -> (c: u8)
        ensures
            c == self.spec_code(),
    {
        match self {
            Operation::StandardQuery => 0,
            Operation::InverseQuery => 1,
            Operation::ServerStatusRequest => 2,
        }
    }
}

/// How a server answered.
#[derive(Clone, Copy, Debug, PartialEq, Eq, Structural)]
pub enum ResponseCode {
    NoError,
    FormatError,
    ServerError,
    NameError,
    NotImplementedError,
    RequestDenied,
}

/// One question of a query.
pub struct QuestionRecord {
    pub domain_name: &'static str,
    pub query_type: ResourceType,
    pub query_class: ResourceClass,
}

} // verus!
