//! Bounds-checked cursor over a byte buffer.

use crate::message::DecodeError;
use vstd::prelude::*;

verus! {

/// What a read yields: the value, or the reason it could not be read.
pub type DecodeResult<T> = Result<T, DecodeError>;

/// What reading at an offset amounts to: the value together with the offset
/// just past it, or the error.
pub type Parsed<T> = Result<(T, int), DecodeError>;

/// The byte at `at`.
pub open spec fn parse_u8(data: Seq<u8>, at: int) -> Parsed<u8> {
    if 0 <= at && at + 1 <= data.len() {
        Ok((data[at], at + 1))
    } else {
        Err(DecodeError::EndOfInput)
    }
}

/// The number that the two bytes at `at` spell, most significant first.
pub open spec fn word_at(data: Seq<u8>, at: int) -> u16 {
    (data[at] * 0x100 + data[at + 1]) as u16
}

/// The number that the four bytes at `at` spell, most significant first.
pub open spec fn long_at(data: Seq<u8>, at: int) -> u32 {
    (data[at] * 0x100_0000 + data[at + 1] * 0x1_0000 + data[at + 2] * 0x100 + data[at + 3]) as u32
}

/// The big-endian 16-bit number at `at`.
pub open spec fn parse_u16(data: Seq<u8>, at: int) -> Parsed<u16> {
    if 0 <= at && at + 2 <= data.len() {
        Ok((word_at(data, at), at + 2))
    } else {
        Err(DecodeError::EndOfInput)
    }
}

/// The big-endian 32-bit number at `at`.
pub open spec fn parse_u32(data: Seq<u8>, at: int) -> Parsed<u32> {
    if 0 <= at && at + 4 <= data.len() {
        Ok((long_at(data, at), at + 4))
    } else {
        Err(DecodeError::EndOfInput)
    }
}

/// Every byte is a 7-bit character code.
pub open spec fn is_ascii_bytes(bytes: Seq<u8>) -> bool {
    forall|i: int| 0 <= i < bytes.len() ==> bytes[i] < 0x80
}

/// The characters whose codes are `bytes`.
pub open spec fn ascii_chars(bytes: Seq<u8>) -> Seq<char> {
    bytes.map_values(|b: u8| b as char)
}

/// The `len` bytes at `at`, read as 7-bit characters.
pub open spec fn parse_str(data: Seq<u8>, at: int, len: nat) -> Parsed<Seq<char>> {
    if at < 0 || at + len > data.len() {
        Err(DecodeError::EndOfInput)
    } else if !is_ascii_bytes(data.subrange(at, at + len)) {
        Err(DecodeError::InvalidFormat)
    } else {
        Ok((ascii_chars(data.subrange(at, at + len)), at + len))
    }
}

/// The labels of the label sequence that starts at `at`: length-prefixed
/// segments up to a zero length byte. Every length byte from 1 to 255 is
/// taken as a length.
pub open spec fn parse_labels(data: Seq<u8>, at: int) -> Parsed<Seq<Seq<u8>>>
    decreases data.len() - at,
{
    if at < 0 || at >= data.len() {
        Err(DecodeError::InvalidFormat)
    } else if data[at] == 0 {
        Ok((Seq::empty(), at + 1))
    } else {
        let end = at + 1 + data[at];
        if end > data.len() || !is_ascii_bytes(data.subrange(at + 1, end)) {
            Err(DecodeError::InvalidFormat)
        } else {
            match parse_labels(data, end) {
                Ok((rest, after)) => Ok((seq![data.subrange(at + 1, end)] + rest, after)),
                Err(e) => Err(e),
            }
        }
    }
}

/// The labels written as a domain name, with `.` between them.
pub open spec fn dotted(labels: Seq<Seq<u8>>) -> Seq<char>
    decreases labels.len(),
{
    if labels.len() == 0 {
        Seq::empty()
    } else if labels.len() == 1 {
        ascii_chars(labels[0])
    } else {
        dotted(labels.drop_last()) + seq!['.'] + ascii_chars(labels.last())
    }
}

/// The domain name spelled by the label sequence at `at`.
pub open spec fn parse_label_sequence(data: Seq<u8>, at: int) -> Parsed<Seq<char>> {
    match parse_labels(data, at) {
        Ok((labels, after)) => Ok((dotted(labels), after)),
        Err(e) => Err(e),
    }
}

/// The offset that the two bytes of a compression pointer hold.
pub open spec fn pointer_target(first: u8, second: u8) -> int {
    (first - 0xC0) * 0x100 + second
}

/// The name field at `at`. A first byte with its top two bits set makes the
/// field a two-byte pointer to a label sequence elsewhere in the buffer;
/// otherwise the field is a label sequence. One pointer is followed: what it
/// points at is read as a plain label sequence.
pub open spec fn parse_name(data: Seq<u8>, at: int) -> Parsed<Seq<char>> {
    if 0 <= at < data.len() && data[at] >= 0xC0 {
        if at + 2 <= data.len() {
            match parse_label_sequence(data, pointer_target(data[at], data[at + 1])) {
                Ok((name, _)) => Ok((name, at + 2)),
                Err(e) => Err(e),
            }
        } else {
            Err(DecodeError::EndOfInput)
        }
    } else {
        parse_label_sequence(data, at)
    }
}

/// A compression pointer stands for the label sequence at its target, and
/// takes two bytes whatever the length of that sequence.
pub proof fn lemma_pointer_stands_for_target(data: Seq<u8>, at: int)
    requires
        0 <= at,
        at + 2 <= data.len(),
        data[at] >= 0xC0,
    ensures
        parse_name(data, at) == (match parse_label_sequence(
            data,
            pointer_target(data[at], data[at + 1]),
        ) {
            Ok((name, _)) => Ok::<(Seq<char>, int), DecodeError>((name, at + 2)),
            Err(e) => Err(e),
        }),
{
}

/// `String::push` of the standard library appends the character to the end
/// of the string and leaves the rest of it as it was.
pub assume_specification[ String::push ](s: &mut String, ch: char)
    ensures
        final(s)@ == old(s)@.push(ch),
;

/// Appends the bytes `first..end` of `data` to `text` as characters, and says
/// whether all of them are 7-bit. Where one is not, `text` is left with the
/// characters before it.
fn append_ascii(text: &mut String, data: &[u8], first: usize, end: usize) -> (ok: bool)
    requires
        first <= end <= data@.len(),
    ensures
        ok == is_ascii_bytes(data@.subrange(first as int, end as int)),
        ok ==> final(text)@ == old(text)@ + ascii_chars(data@.subrange(first as int, end as int)),
{
    let ghost range = data@.subrange(first as int, end as int);
    let mut i = first;
    while i < end
        invariant
            first <= i <= end <= data@.len(),
            range == data@.subrange(first as int, end as int),
            is_ascii_bytes(range.take(i - first)),
            text@ == old(text)@ + ascii_chars(range.take(i - first)),
        decreases end - i,
    {
        let b = data[i];
        if b >= 0x80 {
            assert(range[i - first] == b);
            return false;
        }
        text.push(b as char);
        i = i + 1;
    }
    assert(range.take(end - first) == range);
    true
}

/// A read position in an immutable byte buffer.
#[derive(Clone, Copy)]
pub struct Decoder<'a> {
    data: &'a [u8],
    offset: usize,
}

impl<'a> Decoder<'a> {
    #[verifier::type_invariant]
    spec fn in_bounds(self) -> bool {
        self.offset <= self.data@.len()
    }

    /// The whole buffer.
    pub closed spec fn bytes(&self) -> Seq<u8> {
        self.data@
    }

    /// The offset of the next byte to read.
    pub closed spec fn cursor(&self) -> nat {
        self.offset as nat
    }

    /// A cursor at the start of `data`.
    pub fn new(data: &'a [u8]) -> (d: Decoder<'a>)
        ensures
            d.bytes() == data@,
            d.cursor() == 0,
    {
        Decoder { data, offset: 0 }
    }

    /// The offset of the next byte to read.
    pub fn offset(&self) -> (at: usize)
        ensures
            at == self.cursor(),
            at <= self.bytes().len(),
    {
        proof {
            use_type_invariant(self);
        }
        self.offset
    }

    /// Reads one byte.
    pub fn read_u8(&mut self) -> (r: DecodeResult<u8>)
        ensures
            final(self).bytes() == old(self).bytes(),
            match parse_u8(old(self).bytes(), old(self).cursor() as int) {
                Ok((v, after)) => r == Ok::<u8, DecodeError>(v) && final(self).cursor() == after,
                Err(e) => r == Err::<u8, DecodeError>(e) && final(self).cursor() == old(self).cursor(),
            },
    {
        proof {
            use_type_invariant(&*self);
        }
        if self.data.len() - self.offset < 1 {
            return Err(DecodeError::EndOfInput);
        }
        let v = self.data[self.offset];
        self.offset = self.offset + 1;
        Ok(v)
    }

    /// Reads two bytes as a big-endian number.
    pub fn read_u16(&mut self) -> (r: DecodeResult<u16>)
        ensures
            final(self).bytes() == old(self).bytes(),
            match parse_u16(old(self).bytes(), old(self).cursor() as int) {
                Ok((v, after)) => r == Ok::<u16, DecodeError>(v) && final(self).cursor() == after,
                Err(e) => r == Err::<u16, DecodeError>(e) && final(self).cursor() == old(self).cursor(),
            },
    {
        proof {
            use_type_invariant(&*self);
        }
        if self.data.len() - self.offset < 2 {
            return Err(DecodeError::EndOfInput);
        }
        let high = self.data[self.offset] as u16;
        let low = self.data[self.offset + 1] as u16;
        self.offset = self.offset + 2;
        Ok(high * 0x100 + low)
    }

    /// Reads four bytes as a big-endian number.
    pub fn read_u32(&mut self) -> (r: DecodeResult<u32>)
        ensures
            final(self).bytes() == old(self).bytes(),
            match parse_u32(old(self).bytes(), old(self).cursor() as int) {
                Ok((v, after)) => r == Ok::<u32, DecodeError>(v) && final(self).cursor() == after,
                Err(e) => r == Err::<u32, DecodeError>(e) && final(self).cursor() == old(self).cursor(),
            },
    {
        proof {
            use_type_invariant(&*self);
        }
        if self.data.len() - self.offset < 4 {
            return Err(DecodeError::EndOfInput);
        }
        let b0 = self.data[self.offset] as u32;
        let b1 = self.data[self.offset + 1] as u32;
        let b2 = self.data[self.offset + 2] as u32;
        let b3 = self.data[self.offset + 3] as u32;
        self.offset = self.offset + 4;
        Ok(b0 * 0x100_0000 + b1 * 0x1_0000 + b2 * 0x100 + b3)
    }

    /// Reads `len` bytes as 7-bit characters.
    pub fn read_str(&mut self, len: usize) -> (r: DecodeResult<String>)
        ensures
            final(self).bytes() == old(self).bytes(),
            match parse_str(old(self).bytes(), old(self).cursor() as int, len as nat) {
                Ok((text, after)) => r is Ok && r->Ok_0@ == text && final(self).cursor() == after,
                Err(e) => r == Err::<String, DecodeError>(e) && final(self).cursor() == old(self).cursor(),
            },
    {
        proof {
            use_type_invariant(&*self);
        }
        if self.data.len() - self.offset < len {
            return Err(DecodeError::EndOfInput);
        }
        let start = self.offset;
        let mut text = String::new();
        if !append_ascii(&mut text, self.data, start, start + len) {
            return Err(DecodeError::InvalidFormat);
        }
        self.offset = start + len;
        Ok(text)
    }

    /// Reads the label sequence that starts at `start` and returns the domain
    /// name it spells together with the offset just past its terminating zero
    /// byte. The cursor is not consulted and does not move.
    pub fn read_label_sequence(&self, start: usize) -> (r: DecodeResult<(String, usize)>)
        ensures
            match parse_label_sequence(self.bytes(), start as int) {
                Ok((name, after)) => r is Ok && r->Ok_0.0@ == name && r->Ok_0.1 == after,
                Err(e) => r == Err::<(String, usize), DecodeError>(e),
            },
    {
        let data = self.data;
        let mut name = String::new();
        let mut at = start;
        let mut leading = true;
        let ghost mut done: Seq<Seq<u8>> = Seq::empty();
        loop
            invariant
                data@ == self.bytes(),
                leading <==> done.len() == 0,
                name@ == dotted(done),
                parse_labels(data@, start as int) == (match parse_labels(data@, at as int) {
                    Ok((rest, after)) => Ok((done + rest, after)),
                    Err(e) => Err(e),
                }),
            decreases data@.len() - at,
        {
            if at >= data.len() {
                return Err(DecodeError::InvalidFormat);
            }
            let len = data[at] as usize;
            if len == 0 {
                return Ok((name, at + 1));
            }
            if len > data.len() - at - 1 {
                return Err(DecodeError::InvalidFormat);
            }
            let first = at + 1;
            let end = first + len;
            let ghost label = data@.subrange(first as int, end as int);
            if !leading {
                name.push('.');
            }
            let ghost stem = name@;
            if !append_ascii(&mut name, data, first, end) {
                return Err(DecodeError::InvalidFormat);
            }
            proof {
                let grown = done.push(label);
                assert(grown.drop_last() == done);
                assert(stem + ascii_chars(label) == dotted(grown));
                match parse_labels(data@, end as int) {
                    Ok((rest, after)) => {
                        assert(done + (seq![label] + rest) == grown + rest);
                    },
                    Err(_) => {},
                }
                done = grown;
            }
            leading = false;
            at = end;
        }
    }

    /// Reads the name field at the cursor: a label sequence, or a two-byte
    /// compression pointer to one. After a pointer the cursor stands just
    /// past its two bytes.
    pub fn read_name(&mut self) -> (r: DecodeResult<String>)
        ensures
            final(self).bytes() == old(self).bytes(),
            match parse_name(old(self).bytes(), old(self).cursor() as int) {
                Ok((name, after)) => r is Ok && r->Ok_0@ == name && final(self).cursor() == after,
                Err(e) => r == Err::<String, DecodeError>(e) && final(self).cursor() == old(self).cursor(),
            },
    {
        proof {
            use_type_invariant(&*self);
        }
        let at = self.offset;
        if at < self.data.len() && self.data[at] >= 0xC0 {
            if self.data.len() - at < 2 {
                return Err(DecodeError::EndOfInput);
            }
            let high = (self.data[at] - 0xC0) as usize;
            let low = self.data[at + 1] as usize;
            match self.read_label_sequence(high * 0x100 + low) {
                Ok((name, _)) => {
                    self.offset = at + 2;
                    Ok(name)
                },
                Err(e) => Err(e),
            }
        } else {
            match self.read_label_sequence(at) {
                Ok((name, after)) => {
                    proof {
                        lemma_parse_labels_bounds(self.data@, at as int);
                    }
                    self.offset = after;
                    Ok(name)
                },
                Err(e) => Err(e),
            }
        }
    }
}

/// A value that can be read from a cursor.
///
/// `parse` says what `decode` does on a buffer `data` with the cursor at
/// `at`: `Ok` with what the value holds and the offset just past it, where
/// `decode` leaves the cursor, or the error. A failed `decode` leaves the
/// cursor where it was.
pub trait Decodable: Sized + View {
    spec fn parse(data: Seq<u8>, at: int) -> Parsed<Self::V>;

    fn decode(d: &mut Decoder) -> (r: DecodeResult<Self>)
        ensures
            final(d).bytes() == old(d).bytes(),
            match Self::parse(old(d).bytes(), old(d).cursor() as int) {
                Ok((value, after)) => r is Ok && r->Ok_0@ == value && final(d).cursor() == after,
                Err(e) => r == Err::<Self, DecodeError>(e) && final(d).cursor() == old(d).cursor(),
            },
    ;
}

/// `count` values one after the other, the first of them at `at`.
pub open spec fn parse_many<T: Decodable>(data: Seq<u8>, at: int, count: nat) -> Parsed<Seq<T::V>>
    decreases count,
{
    if count == 0 {
        Ok((Seq::empty(), at))
    } else {
        match T::parse(data, at) {
            Ok((first, next)) => match parse_many::<T>(data, next, (count - 1) as nat) {
                Ok((rest, after)) => Ok((seq![first] + rest, after)),
                Err(e) => Err(e),
            },
            Err(e) => Err(e),
        }
    }
}

/// Reads `count` values one after the other. The first value that cannot be
/// read fails the whole read.
pub fn decode_many<T: Decodable>(d: &mut Decoder, count: u16) -> (r: DecodeResult<Vec<T>>)
    ensures
        final(d).bytes() == old(d).bytes(),
        match parse_many::<T>(old(d).bytes(), old(d).cursor() as int, count as nat) {
            Ok((values, after)) => {
                &&& r is Ok
                &&& r->Ok_0@.map_values(|t: T| t@) == values
                &&& final(d).cursor() == after
            },
            Err(e) => r == Err::<Vec<T>, DecodeError>(e) && final(d).cursor() == old(d).cursor(),
        },
{
    let mut c = *d;
    let mut values: Vec<T> = Vec::new();
    let mut i: u16 = 0;
    while i < count
        invariant
            i <= count,
            c.bytes() == d.bytes(),
            *d == *old(d),
            parse_many::<T>(d.bytes(), d.cursor() as int, count as nat) == (match parse_many::<T>(
                c.bytes(),
                c.cursor() as int,
                (count - i) as nat,
            ) {
                Ok((rest, after)) => Ok((values@.map_values(|t: T| t@) + rest, after)),
                Err(e) => Err(e),
            }),
        decreases count - i,
    {
        let ghost before = values@.map_values(|t: T| t@);
        let value = T::decode(&mut c)?;
        proof {
            assert(values@.push(value).map_values(|t: T| t@) == before.push(value@));
            match parse_many::<T>(c.bytes(), c.cursor() as int, (count - i - 1) as nat) {
                Ok((rest, after)) => {
                    assert(before + (seq![value@] + rest) == before.push(value@) + rest);
                },
                Err(_) => {},
            }
        }
        values.push(value);
        i = i + 1;
    }
    *d = c;
    Ok(values)
}

/// `parse_many` yields as many values as it was asked for.
pub proof fn lemma_parse_many_len<T: Decodable>(data: Seq<u8>, at: int, count: nat)
    ensures
        parse_many::<T>(data, at, count) matches Ok((values, _)) ==> values.len() == count,
    decreases count,
{
    if count > 0 {
        match T::parse(data, at) {
            Ok((_, next)) => lemma_parse_many_len::<T>(data, next, (count - 1) as nat),
            Err(_) => {},
        }
    }
}

/// Where `count` values are read and the next one fails, reading more than
/// `count` values fails with its error.
pub proof fn lemma_first_failure_decides<T: Decodable>(
    data: Seq<u8>,
    at: int,
    count: nat,
    more: nat,
)
    requires
        count < more,
        parse_many::<T>(data, at, count) is Ok,
        T::parse(data, parse_many::<T>(data, at, count)->Ok_0.1) is Err,
    ensures
        parse_many::<T>(data, at, more) == Err::<(Seq<T::V>, int), DecodeError>(
            T::parse(data, parse_many::<T>(data, at, count)->Ok_0.1)->Err_0,
        ),
    decreases count,
{
    if count > 0 {
        let next = T::parse(data, at)->Ok_0.1;
        lemma_first_failure_decides::<T>(data, next, (count - 1) as nat, (more - 1) as nat);
    }
}

/// A label sequence ends inside the buffer, past where it starts.
pub proof fn lemma_parse_labels_bounds(data: Seq<u8>, at: int)
    ensures
        parse_labels(data, at) matches Ok((_, after)) ==> at < after <= data.len(),
    decreases data.len() - at,
{
    if 0 <= at < data.len() && data[at] != 0 && at + 1 + data[at] <= data.len() {
        lemma_parse_labels_bounds(data, at + 1 + data[at]);
    }
}

} // verus!
