//! What is sent can be read back: decoding inverts encoding on every query
//! whose names survive the wire, and a query that lacks its last byte fails
//! to decode with `EndOfInput`.

use crate::binary::decoder;
use crate::binary::decoder::Decodable;
use crate::binary::encoder;
use crate::message;
use crate::message::{
    Flag, Header, Message, MessageView, Operation, QuestionRecord, QuestionRecordView,
};
use crate::resource::{Resource, ResourceType, ResourceView};
use vstd::prelude::*;

verus! {

/// Every label of the written name has from 1 to 255 bytes.
pub open spec fn labels_fit(name: Seq<u8>) -> bool {
    forall|i: int|
        0 <= i < message::split_labels(name).len() ==> 1 <= (#[trigger] message::split_labels(
            name,
        )[i]).len() <= 0xFF
}

/// The name comes back from the wire as it went: it is made of 7-bit
/// characters, none of its labels is empty or longer than 255 bytes, and its
/// first label is shorter than 192 bytes, so that its length byte is not
/// taken for a compression pointer.
pub open spec fn survives_wire(name: Seq<char>) -> bool {
    let written = vstd::utf8::encode_utf8(name);
    &&& vstd::utf8::is_ascii_chars(name)
    &&& labels_fit(written)
    &&& message::label_len(written) < 0xC0
}

/// The first label ends at a dot or at the end of the name, and holds no dot.
pub proof fn lemma_label_len_ends(name: Seq<u8>)
    ensures
        message::label_len(name) <= name.len(),
        message::label_len(name) < name.len() ==> name[message::label_len(name) as int]
            == message::DOT,
        forall|j: int| 0 <= j < message::label_len(name) ==> name[j] != message::DOT,
    decreases name.len(),
{
    if name.len() > 0 && name[0] != message::DOT {
        let rest = name.drop_first();
        lemma_label_len_ends(rest);
        assert forall|j: int| 0 <= j < message::label_len(name) implies name[j] != message::DOT by {
            if j > 0 {
                assert(name[j] == rest[j - 1]);
            }
        }
    }
}

/// A name has at least one label.
pub proof fn lemma_split_labels_nonempty(name: Seq<u8>)
    ensures
        message::split_labels(name).len() >= 1,
{
}

/// Writing a label before others puts it, and a dot, before what they spell.
pub proof fn lemma_dotted_cons(first: Seq<u8>, rest: Seq<Seq<u8>>)
    requires
        rest.len() >= 1,
    ensures
        decoder::dotted(seq![first] + rest) == decoder::ascii_chars(first) + seq!['.']
            + decoder::dotted(rest),
    decreases rest.len(),
{
    let all = seq![first] + rest;
    if rest.len() == 1 {
        assert(decoder::dotted(all.drop_last()) == decoder::ascii_chars(first));
    } else {
        assert(all.drop_last() == seq![first] + rest.drop_last());
        lemma_dotted_cons(first, rest.drop_last());
    }
}

/// The labels of a name, written with dots between them, spell the name.
pub proof fn lemma_dotted_split(name: Seq<u8>)
    ensures
        decoder::dotted(message::split_labels(name)) == decoder::ascii_chars(name),
    decreases name.len(),
{
    let n = message::label_len(name) as int;
    lemma_label_len_ends(name);
    if n < name.len() {
        let first = name.take(n);
        let rest = name.skip(n + 1);
        lemma_dotted_split(rest);
        lemma_split_labels_nonempty(rest);
        lemma_dotted_cons(first, message::split_labels(rest));
    }
}

/// The bytes of a name of 7-bit characters are the codes of its characters.
pub proof fn lemma_ascii_name_bytes(name: Seq<char>)
    requires
        vstd::utf8::is_ascii_chars(name),
    ensures
        decoder::is_ascii_bytes(vstd::utf8::encode_utf8(name)),
        decoder::ascii_chars(vstd::utf8::encode_utf8(name)) == name,
{
    let written = vstd::utf8::encode_utf8(name);
    vstd::utf8::is_ascii_chars_encode_utf8(name);
    assert(forall|i: int| 0 <= i < written.len() ==> written[i] < 0x80);
    assert(forall|i: int| 0 <= i < name.len() ==> decoder::ascii_chars(written)[i] == name[i]);
}

/// The bytes `part` stand in `data` from the offset `at` on.
pub open spec fn holds_at(data: Seq<u8>, at: int, part: Seq<u8>) -> bool {
    &&& 0 <= at
    &&& at + part.len() <= data.len()
    &&& data.subrange(at, at + part.len()) == part
}

/// Two runs of bytes stand one after the other where their concatenation
/// stands.
pub proof fn lemma_holds_parts(data: Seq<u8>, at: int, first: Seq<u8>, second: Seq<u8>)
    requires
        holds_at(data, at, first + second),
    ensures
        holds_at(data, at, first),
        holds_at(data, at + first.len(), second),
{
    let both = first + second;
    let mid = at + first.len();
    assert(data.subrange(at, mid) == both.subrange(0, first.len() as int));
    assert(both.subrange(0, first.len() as int) == first);
    assert(data.subrange(mid, mid + second.len()) == both.subrange(
        first.len() as int,
        both.len() as int,
    ));
    assert(both.subrange(first.len() as int, both.len() as int) == second);
}

/// A byte of a run that stands in a buffer is the byte of the buffer at its
/// place.
pub proof fn lemma_holds_byte(data: Seq<u8>, at: int, part: Seq<u8>, i: int)
    requires
        holds_at(data, at, part),
        0 <= i < part.len(),
    ensures
        data[at + i] == part[i],
{
}

/// Cutting the last byte off two runs of bytes cuts it off the second, if
/// that has one.
pub proof fn lemma_drop_last_of_parts(first: Seq<u8>, second: Seq<u8>)
    requires
        second.len() >= 1,
    ensures
        (first + second).drop_last() == first + second.drop_last(),
{
}

/// A 16-bit number is read back where its two bytes stand.
pub proof fn lemma_be16_read_back(data: Seq<u8>, at: int, v: u16)
    requires
        holds_at(data, at, encoder::be16(v)),
    ensures
        decoder::parse_u16(data, at) == Ok::<(u16, int), message::DecodeError>((v, at + 2)),
{
    lemma_holds_byte(data, at, encoder::be16(v), 0);
    lemma_holds_byte(data, at, encoder::be16(v), 1);
}

/// Plain flags are read back where their two bytes stand.
pub proof fn lemma_flag_read_back(data: Seq<u8>, at: int, flag: Flag)
    requires
        flag.is_plain(),
        holds_at(data, at, flag.wire()),
    ensures
        Flag::parse(data, at) == Ok::<(Flag, int), message::DecodeError>((flag, at + 2)),
{
    lemma_holds_byte(data, at, flag.wire(), 0);
    lemma_holds_byte(data, at, flag.wire(), 1);
}

/// A header with plain flags is read back where its twelve bytes stand.
pub proof fn lemma_header_read_back(data: Seq<u8>, at: int, header: Header)
    requires
        header.flag.is_plain(),
        holds_at(data, at, header.wire()),
    ensures
        header.wire().len() == 12,
        Header::parse(data, at) == Ok::<(Header, int), message::DecodeError>((header, at + 12)),
{
    let id = encoder::be16(header.identity);
    let flag = header.flag.wire();
    let qd = encoder::be16(header.question_count);
    let an = encoder::be16(header.answer_pr_count);
    let ns = encoder::be16(header.authorative_pr_count);
    let ar = encoder::be16(header.additional_pr_count);
    lemma_holds_parts(data, at, id + flag + qd + an + ns, ar);
    lemma_holds_parts(data, at, id + flag + qd + an, ns);
    lemma_holds_parts(data, at, id + flag + qd, an);
    lemma_holds_parts(data, at, id + flag, qd);
    lemma_holds_parts(data, at, id, flag);
    lemma_be16_read_back(data, at, header.identity);
    lemma_flag_read_back(data, at + 2, header.flag);
    lemma_be16_read_back(data, at + 4, header.question_count);
    lemma_be16_read_back(data, at + 6, header.answer_pr_count);
    lemma_be16_read_back(data, at + 8, header.authorative_pr_count);
    lemma_be16_read_back(data, at + 10, header.additional_pr_count);
}

/// A written name is read back as its labels where its bytes stand.
pub proof fn lemma_labels_read_back(data: Seq<u8>, at: int, name: Seq<u8>)
    requires
        decoder::is_ascii_bytes(name),
        labels_fit(name),
        holds_at(data, at, message::name_wire(name)),
    ensures
        decoder::parse_labels(data, at) == Ok::<(Seq<Seq<u8>>, int), message::DecodeError>(
            (message::split_labels(name), at + message::name_wire(name).len()),
        ),
    decreases name.len(),
{
    let n = message::label_len(name) as int;
    lemma_label_len_ends(name);
    let labels = message::split_labels(name);
    let label = if n < name.len() {
        name.take(n)
    } else {
        name
    };
    let tail = if n < name.len() {
        message::name_wire(name.skip(n + 1))
    } else {
        seq![0u8]
    };
    assert(labels[0] == label);
    lemma_holds_parts(data, at, message::label_wire(label), tail);
    lemma_holds_parts(data, at, seq![(n % 0x100) as u8], label);
    lemma_holds_byte(data, at, seq![(n % 0x100) as u8], 0);
    let end = at + 1 + n;
    assert(decoder::is_ascii_bytes(label));
    if n < name.len() {
        let rest = name.skip(n + 1);
        assert(decoder::is_ascii_bytes(rest));
        assert forall|i: int| 0 <= i < message::split_labels(rest).len() implies 1 <= (
        #[trigger] message::split_labels(rest)[i]).len() <= 0xFF by {
            assert(labels[i + 1] == message::split_labels(rest)[i]);
        }
        lemma_labels_read_back(data, end, rest);
    } else {
        lemma_holds_byte(data, end, tail, 0);
    }
}

/// A name that survives the wire is read back as a name field where its
/// bytes stand.
pub proof fn lemma_name_read_back(data: Seq<u8>, at: int, name: Seq<char>)
    requires
        survives_wire(name),
        holds_at(data, at, message::name_wire(vstd::utf8::encode_utf8(name))),
    ensures
        decoder::parse_name(data, at) == Ok::<(Seq<char>, int), message::DecodeError>(
            (name, at + message::name_wire(vstd::utf8::encode_utf8(name)).len()),
        ),
{
    let written = vstd::utf8::encode_utf8(name);
    lemma_ascii_name_bytes(name);
    lemma_labels_read_back(data, at, written);
    lemma_dotted_split(written);
    lemma_label_len_ends(written);
    lemma_holds_byte(data, at, message::name_wire(written), 0);
}

/// A question whose name survives the wire is read back where its bytes
/// stand.
pub proof fn lemma_question_read_back(data: Seq<u8>, at: int, q: QuestionRecordView)
    requires
        survives_wire(q.domain_name),
        holds_at(data, at, q.wire()),
    ensures
        QuestionRecord::parse(data, at) == Ok::<(QuestionRecordView, int), message::DecodeError>(
            (q, at + q.wire().len()),
        ),
{
    let name = message::name_wire(vstd::utf8::encode_utf8(q.domain_name));
    let qtype = encoder::be16(q.query_type.spec_code());
    let qclass = encoder::be16(q.query_class.spec_code());
    lemma_holds_parts(data, at, name + qtype, qclass);
    lemma_holds_parts(data, at, name, qtype);
    lemma_name_read_back(data, at, q.domain_name);
    lemma_be16_read_back(data, at + name.len(), q.query_type.spec_code());
    lemma_be16_read_back(data, at + name.len() + 2, q.query_class.spec_code());
}

/// Questions whose names survive the wire are read back where their bytes
/// stand.
pub proof fn lemma_questions_read_back(data: Seq<u8>, at: int, questions: Seq<QuestionRecordView>)
    requires
        forall|i: int|
            0 <= i < questions.len() ==> survives_wire((#[trigger] questions[i]).domain_name),
        holds_at(data, at, message::questions_wire(questions)),
    ensures
        decoder::parse_many::<QuestionRecord>(data, at, questions.len()) == Ok::<
            (Seq<QuestionRecordView>, int),
            message::DecodeError,
        >((questions, at + message::questions_wire(questions).len())),
    decreases questions.len(),
{
    if questions.len() == 0 {
        assert(questions == Seq::<QuestionRecordView>::empty());
    } else {
        let first = questions[0];
        let rest = questions.drop_first();
        lemma_holds_parts(data, at, first.wire(), message::questions_wire(rest));
        lemma_question_read_back(data, at, first);
        assert(forall|i: int|
            0 <= i < rest.len() ==> survives_wire((#[trigger] rest[i]).domain_name));
        lemma_questions_read_back(data, at + first.wire().len(), rest);
        assert(seq![first] + rest == questions);
    }
}

/// The header and the questions of a query are read back from its bytes.
pub proof fn lemma_query_read_back(m: MessageView)
    requires
        m.flag.is_plain(),
        forall|i: int|
            0 <= i < m.question_record.len() ==> survives_wire(
                (#[trigger] m.question_record[i]).domain_name,
            ),
    ensures
        Header::parse(m.wire(), 0) == Ok::<(Header, int), message::DecodeError>((m.header(), 12)),
        decoder::parse_many::<QuestionRecord>(m.wire(), 12, m.question_record.len()) == Ok::<
            (Seq<QuestionRecordView>, int),
            message::DecodeError,
        >((m.question_record, m.wire().len() as int)),
{
    let data = m.wire();
    assert(holds_at(data, 0, m.wire())) by {
        assert(data.subrange(0, data.len() as int) == data);
    }
    lemma_holds_parts(data, 0, m.header().wire(), message::questions_wire(m.question_record));
    lemma_header_read_back(data, 0, m.header());
    lemma_questions_read_back(data, 12, m.question_record);
}

/// Decoding the bytes of a query gives the query back: identity, flags,
/// counts and questions. It holds of every query whose names survive the
/// wire.
pub proof fn lemma_query_round_trip(m: MessageView)
    requires
        m.is_query(),
        forall|i: int|
            0 <= i < m.question_record.len() ==> survives_wire(
                (#[trigger] m.question_record[i]).domain_name,
            ),
    ensures
        Message::parse(m.wire()) == Ok::<MessageView, message::DecodeError>(m),
{
    reveal(Message::parse);
    lemma_query_read_back(m);
    assert(m.answer_record == Seq::<ResourceView>::empty());
    assert(m.authorative_record == Seq::<ResourceView>::empty());
    assert(m.additional_record == Seq::<ResourceView>::empty());
}

/// What `Message::new` builds from up to 65535 names is a query, and asks
/// for the names in their order.
pub proof fn lemma_new_query_shape(
    id: u16,
    operation: Operation,
    recursive: bool,
    names: Seq<Seq<char>>,
    query_type: ResourceType,
)
    requires
        names.len() <= 0xFFFF,
    ensures
        Message::query(id, operation, recursive, names, query_type).is_query(),
        Message::query(id, operation, recursive, names, query_type).question_record.len()
            == names.len(),
        forall|i: int|
            0 <= i < names.len() ==> (#[trigger] Message::query(
                id,
                operation,
                recursive,
                names,
                query_type,
            ).question_record[i]).domain_name == names[i],
{
}

/// Decoding the bytes of the query that `Message::new` builds gives that
/// query back, for up to 65535 names that survive the wire.
pub proof fn lemma_new_query_round_trip(
    id: u16,
    operation: Operation,
    recursive: bool,
    names: Seq<Seq<char>>,
    query_type: ResourceType,
)
    requires
        names.len() <= 0xFFFF,
        forall|i: int| 0 <= i < names.len() ==> survives_wire(#[trigger] names[i]),
    ensures
        Message::parse(Message::query(id, operation, recursive, names, query_type).wire()) == Ok::<
            MessageView,
            message::DecodeError,
        >(Message::query(id, operation, recursive, names, query_type)),
{
    let m = Message::query(id, operation, recursive, names, query_type);
    lemma_new_query_shape(id, operation, recursive, names, query_type);
    assert(forall|i: int|
        0 <= i < m.question_record.len() ==> survives_wire(
            (#[trigger] m.question_record[i]).domain_name,
        ));
    lemma_query_round_trip(m);
}

/// A name takes at least two bytes: a length byte and the zero byte that
/// ends it.
pub proof fn lemma_name_wire_len(name: Seq<u8>)
    ensures
        message::name_wire(name).len() >= 2,
    decreases name.len(),
{
    let n = message::label_len(name) as int;
    if n < name.len() {
        lemma_name_wire_len(name.skip(n + 1));
    }
}

/// A question takes at least six bytes: its name, and two codes of two
/// bytes.
pub proof fn lemma_question_wire_len(q: QuestionRecordView)
    ensures
        q.wire().len() >= 6,
{
    lemma_name_wire_len(vstd::utf8::encode_utf8(q.domain_name));
}

/// Questions, if there are any, take at least six bytes.
pub proof fn lemma_questions_wire_len(questions: Seq<QuestionRecordView>)
    requires
        questions.len() >= 1,
    ensures
        message::questions_wire(questions).len() >= 6,
{
    lemma_question_wire_len(questions[0]);
}

/// A header with plain flags that lacks its last byte fails with
/// `EndOfInput`.
pub proof fn lemma_header_cut_short(header: Header)
    requires
        header.flag.is_plain(),
    ensures
        Header::parse(header.wire().drop_last(), 0) == Err::<(Header, int), message::DecodeError>(
            message::DecodeError::EndOfInput,
        ),
{
    let data = header.wire().drop_last();
    let id = encoder::be16(header.identity);
    let flag = header.flag.wire();
    assert(holds_at(data, 0, id + flag)) by {
        assert(data.subrange(0, 4) == id + flag);
    }
    lemma_holds_parts(data, 0, id, flag);
    lemma_be16_read_back(data, 0, header.identity);
    lemma_flag_read_back(data, 2, header.flag);
}

/// A question that lacks the last byte of its class code, at the end of a
/// buffer, fails with `EndOfInput`.
pub proof fn lemma_question_cut_short(data: Seq<u8>, at: int, q: QuestionRecordView)
    requires
        survives_wire(q.domain_name),
        holds_at(data, at, q.wire().drop_last()),
        data.len() == at + q.wire().len() - 1,
    ensures
        QuestionRecord::parse(data, at) == Err::<(QuestionRecordView, int), message::DecodeError>(
            message::DecodeError::EndOfInput,
        ),
{
    let name = message::name_wire(vstd::utf8::encode_utf8(q.domain_name));
    let qtype = encoder::be16(q.query_type.spec_code());
    let qclass = encoder::be16(q.query_class.spec_code());
    lemma_drop_last_of_parts(name + qtype, qclass);
    lemma_holds_parts(data, at, name + qtype, qclass.drop_last());
    lemma_holds_parts(data, at, name, qtype);
    lemma_name_read_back(data, at, q.domain_name);
    lemma_be16_read_back(data, at + name.len(), q.query_type.spec_code());
}

/// Questions of which the last lacks the last byte of its class code, at
/// the end of a buffer, fail with `EndOfInput`.
pub proof fn lemma_questions_cut_short(data: Seq<u8>, at: int, questions: Seq<QuestionRecordView>)
    requires
        questions.len() >= 1,
        forall|i: int|
            0 <= i < questions.len() ==> survives_wire((#[trigger] questions[i]).domain_name),
        holds_at(data, at, message::questions_wire(questions).drop_last()),
        data.len() == at + message::questions_wire(questions).len() - 1,
    ensures
        decoder::parse_many::<QuestionRecord>(data, at, questions.len()) == Err::<
            (Seq<QuestionRecordView>, int),
            message::DecodeError,
        >(message::DecodeError::EndOfInput),
    decreases questions.len(),
{
    let first = questions[0];
    let rest = questions.drop_first();
    let others = message::questions_wire(rest);
    if rest.len() == 0 {
        lemma_question_cut_short(data, at, first);
    } else {
        lemma_questions_wire_len(rest);
        lemma_drop_last_of_parts(first.wire(), others);
        lemma_holds_parts(data, at, first.wire(), others.drop_last());
        lemma_question_read_back(data, at, first);
        assert(forall|i: int|
            0 <= i < rest.len() ==> survives_wire((#[trigger] rest[i]).domain_name));
        lemma_questions_cut_short(data, at + first.wire().len(), rest);
    }
}

/// Of a query with questions that lacks its last byte, the header is read
/// and the questions fail with `EndOfInput`.
pub proof fn lemma_query_cut_short(m: MessageView)
    requires
        m.flag.is_plain(),
        m.question_record.len() >= 1,
        forall|i: int|
            0 <= i < m.question_record.len() ==> survives_wire(
                (#[trigger] m.question_record[i]).domain_name,
            ),
    ensures
        Header::parse(m.wire().drop_last(), 0) == Ok::<(Header, int), message::DecodeError>(
            (m.header(), 12),
        ),
        decoder::parse_many::<QuestionRecord>(
            m.wire().drop_last(),
            12,
            m.question_record.len(),
        ) == Err::<(Seq<QuestionRecordView>, int), message::DecodeError>(
            message::DecodeError::EndOfInput,
        ),
{
    let header = m.header();
    let data = m.wire().drop_last();
    let sent = message::questions_wire(m.question_record);
    lemma_questions_wire_len(m.question_record);
    lemma_drop_last_of_parts(header.wire(), sent);
    assert(holds_at(data, 0, header.wire() + sent.drop_last())) by {
        assert(data.subrange(0, data.len() as int) == data);
    }
    lemma_holds_parts(data, 0, header.wire(), sent.drop_last());
    lemma_header_read_back(data, 0, header);
    lemma_questions_cut_short(data, 12, m.question_record);
}

/// A query cut short by its last byte does not decode, and what is reported
/// is `EndOfInput`. It holds of every query whose names survive the wire.
pub proof fn lemma_truncated_query(m: MessageView)
    requires
        m.is_query(),
        forall|i: int|
            0 <= i < m.question_record.len() ==> survives_wire(
                (#[trigger] m.question_record[i]).domain_name,
            ),
    ensures
        Message::parse(m.wire().drop_last()) == Err::<MessageView, message::DecodeError>(
            message::DecodeError::EndOfInput,
        ),
{
    reveal(Message::parse);
    if m.question_record.len() == 0 {
        lemma_header_cut_short(m.header());
    } else {
        lemma_query_cut_short(m);
    }
}

} // verus!
