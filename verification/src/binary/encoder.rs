//! Append-only byte sink and the trait of values that can be written to it.

use vstd::prelude::*;

verus! {

/// What an encoding step yields: a value, or a message saying why it failed.
pub type EncodeResult<T> = Result<T, String>;

/// The two bytes of `v` in network byte order.
pub open spec fn be16(v: u16) -> Seq<u8> {
    seq![(v / 0x100) as u8, (v % 0x100) as u8]
}

/// The four bytes of `v` in network byte order.
pub open spec fn be32(v: u32) -> Seq<u8> {
    seq![
        (v / 0x100_0000) as u8,
        (v / 0x1_0000 % 0x100) as u8,
        (v / 0x100 % 0x100) as u8,
        (v % 0x100) as u8,
    ]
}

/// An append-only byte buffer. Its view is the bytes written so far.
pub struct Encoder {
    buffer: Vec<u8>,
}

impl View for Encoder {
    type V = Seq<u8>;

    closed spec fn view(&self) -> Seq<u8> {
        self.buffer@
    }
}

/// A value that can be written to a sink.
///
/// A type may state its wire form: where `wire_form` is `Some(bytes)`,
/// `encode` succeeds and appends exactly `bytes`. Where it is `None`, as it is
/// unless the type says otherwise, nothing is promised of `encode`.
pub trait Encodable {
    open spec fn wire_form(&self) -> Option<Seq<u8>> {
        None
    }

    fn encode(&self, s: &mut Encoder) -> (r: EncodeResult<()>)
        ensures
            self.wire_form() matches Some(bytes) ==> r is Ok && final(s)@ == old(s)@ + bytes,
    ;
}

/// Encodes `object` into a fresh buffer and returns the bytes. It fails
/// where `object.encode` fails, with its message.
pub fn encode<T: Encodable>(object: &T) -> (r: EncodeResult<Vec<u8>>)
    ensures
        object.wire_form() matches Some(bytes) ==> r is Ok && r->Ok_0@ == bytes,
{
    let mut encoder = Encoder::new(Vec::new());
    match object.encode(&mut encoder) {
        Ok(()) => Ok(encoder.into_bytes()),
        Err(e) => Err(e),
    }
}

impl Encoder {
    /// Starts a sink that appends to `buffer`.
    pub fn new(buffer: Vec<u8>) -> (e: Encoder)
        ensures
            e@ == buffer@,
    {
        Encoder { buffer }
    }

    /// The bytes written so far.
    pub fn buffer(&self) -> (b: &Vec<u8>)
        ensures
            b@ == self@,
    {
        &self.buffer
    }

    /// Ends the sink and hands out its bytes.
    pub fn into_bytes(self) -> (b: Vec<u8>)
        ensures
            b@ == self@,
    {
        self.buffer
    }

    /// Appends one byte.
    pub fn emit_u8(&mut self, v: u8) -> (r: EncodeResult<()>)
        ensures
            r is Ok,
            final(self)@ == old(self)@.push(v),
    {
        self.buffer.push(v);
        Ok(())
    }

    /// Appends `v` as two bytes, most significant first.
    pub fn emit_u16(&mut self, v: u16) -> (r: EncodeResult<()>)
        ensures
            r is Ok,
            final(self)@ == old(self)@ + be16(v),
    {
        assert(v >> 8 == v / 0x100 && v & 0xff == v % 0x100) by (bit_vector);
        self.buffer.push((v >> 8) as u8);
        self.buffer.push((v & 0xff) as u8);
        Ok(())
    }

    /// Appends `v` as four bytes, most significant first.
    pub fn emit_u32(&mut self, v: u32) -> (r: EncodeResult<()>)
        ensures
            r is Ok,
            final(self)@ == old(self)@ + be32(v),
    {
        assert(v >> 24 == v / 0x100_0000 && (v >> 16) & 0xff == v / 0x1_0000 % 0x100 && (v >> 8)
            & 0xff == v / 0x100 % 0x100 && v & 0xff == v % 0x100) by (bit_vector);
        self.buffer.push((v >> 24) as u8);
        self.buffer.push(((v >> 16) & 0xff) as u8);
        self.buffer.push(((v >> 8) & 0xff) as u8);
        self.buffer.push((v & 0xff) as u8);
        Ok(())
    }

    /// Appends raw bytes, with no length prefix and no terminator.
    pub fn emit_bytes(&mut self, v: &[u8]) -> (r: EncodeResult<()>)
        ensures
            r is Ok,
            final(self)@ == old(self)@ + v@,
    {
        self.buffer.extend_from_slice(v);
        Ok(())
    }

    /// Appends the UTF-8 bytes of `v`, with no length prefix and no terminator.
    pub fn emit_str(&mut self, v: &str) -> (r: EncodeResult<()>)
        ensures
            r is Ok,
            final(self)@ == old(self)@ + vstd::utf8::encode_utf8(v@),
    {
        self.buffer.extend_from_slice(v.as_bytes());
        Ok(())
    }

    /// Appends the UTF-8 bytes of `v`, with no length prefix and no terminator.
    pub fn emit_string(&mut self, v: String) -> (r: EncodeResult<()>)
        ensures
            r is Ok,
            final(self)@ == old(self)@ + vstd::utf8::encode_utf8(v@),
    {
        self.buffer.extend_from_slice(v.as_str().as_bytes());
        Ok(())
    }
}

} // verus!
