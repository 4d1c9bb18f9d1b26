use impact::binary::decoder::{decode_many, Decodable, Decoder};
use impact::message::{DecodeError, QuestionRecord};
use impact::resource::{ResourceClass, ResourceType};

fn google_question() -> Vec<u8> {
    vec![
        0u8, 0u8, 1u8, 0u8, 0u8, 1u8, 0u8, 1u8, 0u8, 0u8, 0u8, 0u8, // header
        6u8, 103u8, 111u8, 111u8, 103u8, 108u8, 101u8, 3u8, 99u8, 111u8, 109u8, 0u8, // name
        0u8, 1u8, 0u8, 1u8, // type, class
        0xc0, 0x0c, 0x00, 0x01, 0x00, 0x01, 0x00, 0x00, 0x00, 0x63, 0x00, 0x04, 0xad, 0xc2, 0x7e,
        0xc1,
    ]
}

#[test]
fn test_decode_u() {
    let vec = vec![
        0b01010101, 0b01010101, 0b00001111, 0b11110000, 0b11001100, 0b00110011, 0b00000011,
    ];
    let mut decoder = Decoder::new(&vec);
    let n1 = decoder.read_u32();
    assert_eq!(n1.unwrap(), 0b01010101010101010000111111110000);
    let n2 = decoder.read_u16();
    assert_eq!(n2.unwrap(), 0b1100110000110011);
    let n3 = decoder.read_u8();
    assert_eq!(n3.unwrap(), 0b00000011);
}

#[test]
fn reads_advance_the_cursor_by_their_width() {
    let data = vec![1u8, 2, 3, 4, 5, 6, 7];
    let mut decoder = Decoder::new(&data);
    assert_eq!(decoder.offset(), 0);
    assert_eq!(decoder.read_u8(), Ok(1));
    assert_eq!(decoder.offset(), 1);
    assert_eq!(decoder.read_u16(), Ok(0x0203));
    assert_eq!(decoder.offset(), 3);
    assert_eq!(decoder.read_u32(), Ok(0x04050607));
    assert_eq!(decoder.offset(), 7);
}

#[test]
fn read_u8_at_the_end_is_end_of_input() {
    let data: Vec<u8> = vec![];
    let mut decoder = Decoder::new(&data);
    assert_eq!(decoder.read_u8(), Err(DecodeError::EndOfInput));
    assert_eq!(decoder.offset(), 0);
}

#[test]
fn read_u16_with_one_byte_left_is_end_of_input_and_keeps_the_cursor() {
    let data = vec![9u8, 0xAB];
    let mut decoder = Decoder::new(&data);
    assert_eq!(decoder.read_u8(), Ok(9));
    assert_eq!(decoder.read_u16(), Err(DecodeError::EndOfInput));
    assert_eq!(decoder.offset(), 1);
    assert_eq!(decoder.read_u8(), Ok(0xAB));
}

#[test]
fn read_u32_with_three_bytes_left_is_end_of_input() {
    let data = vec![1u8, 2, 3];
    let mut decoder = Decoder::new(&data);
    assert_eq!(decoder.read_u32(), Err(DecodeError::EndOfInput));
    assert_eq!(decoder.offset(), 0);
}

#[test]
fn read_u32_is_big_endian() {
    let data = vec![0x12u8, 0x34, 0x56, 0x78];
    let mut decoder = Decoder::new(&data);
    assert_eq!(decoder.read_u32(), Ok(0x12345678));
}

#[test]
fn read_str_reads_seven_bit_characters() {
    let data = vec![104u8, 111, 103, 101, 33];
    let mut decoder = Decoder::new(&data);
    assert_eq!(decoder.read_str(4), Ok(String::from("hoge")));
    assert_eq!(decoder.offset(), 4);
    assert_eq!(decoder.read_str(0), Ok(String::new()));
    assert_eq!(decoder.offset(), 4);
}

#[test]
fn read_str_past_the_end_is_end_of_input() {
    let data = vec![104u8, 111];
    let mut decoder = Decoder::new(&data);
    assert_eq!(decoder.read_str(3), Err(DecodeError::EndOfInput));
    assert_eq!(decoder.offset(), 0);
}

#[test]
fn read_str_rejects_a_byte_that_is_no_character() {
    let data = vec![104u8, 0x80, 103];
    let mut decoder = Decoder::new(&data);
    assert_eq!(decoder.read_str(3), Err(DecodeError::InvalidFormat));
    assert_eq!(decoder.offset(), 0);
}

#[test]
fn label_sequence_is_joined_with_dots() {
    let data = google_question();
    let decoder = Decoder::new(&data);
    assert_eq!(
        decoder.read_label_sequence(12),
        Ok((String::from("google.com"), 24))
    );
    assert_eq!(decoder.offset(), 0);
}

#[test]
fn label_sequence_may_start_anywhere() {
    let data = google_question();
    let decoder = Decoder::new(&data);
    assert_eq!(decoder.read_label_sequence(19), Ok((String::from("com"), 24)));
    assert_eq!(decoder.read_label_sequence(23), Ok((String::new(), 24)));
}

#[test]
fn label_sequence_that_leaves_the_buffer_is_invalid() {
    let data = vec![3u8, 99, 111];
    let decoder = Decoder::new(&data);
    assert_eq!(
        decoder.read_label_sequence(0),
        Err(DecodeError::InvalidFormat)
    );
    let unterminated = vec![3u8, 99, 111, 109];
    let decoder = Decoder::new(&unterminated);
    assert_eq!(
        decoder.read_label_sequence(0),
        Err(DecodeError::InvalidFormat)
    );
    assert_eq!(
        decoder.read_label_sequence(4),
        Err(DecodeError::InvalidFormat)
    );
    assert_eq!(
        decoder.read_label_sequence(400),
        Err(DecodeError::InvalidFormat)
    );
}

#[test]
fn label_sequence_rejects_a_byte_that_is_no_character() {
    let data = vec![3u8, 99, 0xFF, 109, 0];
    let decoder = Decoder::new(&data);
    assert_eq!(
        decoder.read_label_sequence(0),
        Err(DecodeError::InvalidFormat)
    );
}

#[test]
fn label_sequence_takes_a_long_length_byte_as_a_length() {
    let mut data = vec![70u8];
    data.extend(std::iter::repeat(b'a').take(70));
    data.push(0);
    let decoder = Decoder::new(&data);
    let expected: String = std::iter::repeat('a').take(70).collect();
    assert_eq!(decoder.read_label_sequence(0), Ok((expected, 72)));
}

#[test]
fn compressed_name_resumes_two_bytes_past_the_pointer() {
    let data = google_question();
    let mut decoder = Decoder::new(&data);
    for _ in 0..6 {
        decoder.read_u16().unwrap();
    }
    assert_eq!(decoder.offset(), 12);
    assert_eq!(decoder.read_name(), Ok(String::from("google.com")));
    assert_eq!(decoder.offset(), 24);
    decoder.read_u32().unwrap();
    assert_eq!(decoder.offset(), 28);
    assert_eq!(decoder.read_name(), Ok(String::from("google.com")));
    assert_eq!(decoder.offset(), 30);
    assert_eq!(decoder.read_u16(), Ok(1));
}

#[test]
fn pointer_offset_has_fourteen_bits() {
    let mut data = vec![0u8; 300];
    data[0] = 0xC1;
    data[1] = 0x02;
    data[258] = 2;
    data[259] = b'h';
    data[260] = b'i';
    data[261] = 0;
    let mut decoder = Decoder::new(&data);
    assert_eq!(decoder.read_name(), Ok(String::from("hi")));
    assert_eq!(decoder.offset(), 2);
}

#[test]
fn pointer_without_its_second_byte_is_end_of_input() {
    let data = vec![1u8, 97, 0, 0xC0];
    let mut decoder = Decoder::new(&data);
    assert_eq!(decoder.read_name(), Ok(String::from("a")));
    assert_eq!(decoder.read_name(), Err(DecodeError::EndOfInput));
    assert_eq!(decoder.offset(), 3);
}

#[test]
fn pointer_out_of_the_buffer_is_invalid() {
    let data = vec![0xC0u8, 0x40, 0];
    let mut decoder = Decoder::new(&data);
    assert_eq!(decoder.read_name(), Err(DecodeError::InvalidFormat));
    assert_eq!(decoder.offset(), 0);
}

#[test]
fn only_one_pointer_is_followed() {
    // The pointer at 0 leads to 2, where a second pointer stands: its first
    // byte is read as a length of 192, which leaves the buffer.
    let data = vec![0xC0u8, 0x02, 0xC0, 0x04, 1, 97, 0];
    let mut decoder = Decoder::new(&data);
    assert_eq!(decoder.read_name(), Err(DecodeError::InvalidFormat));
}

#[test]
fn name_at_the_end_of_the_buffer_is_invalid() {
    let data = vec![0u8];
    let mut decoder = Decoder::new(&data);
    assert_eq!(decoder.read_name(), Ok(String::new()));
    assert_eq!(decoder.read_name(), Err(DecodeError::InvalidFormat));
}

#[test]
fn decode_many_reads_values_in_order() {
    let data = vec![1u8, 97, 0, 0, 1, 0, 1, 1, 98, 0, 0, 2, 0, 1, 7];
    let mut decoder = Decoder::new(&data);
    let questions = decode_many::<QuestionRecord>(&mut decoder, 2).unwrap();
    assert_eq!(
        questions,
        vec![
            QuestionRecord {
                domain_name: String::from("a"),
                query_type: ResourceType::A,
                query_class: ResourceClass::IN,
            },
            QuestionRecord {
                domain_name: String::from("b"),
                query_type: ResourceType::NS,
                query_class: ResourceClass::IN,
            },
        ]
    );
    assert_eq!(decoder.offset(), 14);
    let none = decode_many::<QuestionRecord>(&mut decoder, 0).unwrap();
    assert_eq!(none, vec![]);
    assert_eq!(decoder.offset(), 14);
}

#[test]
fn decode_many_fails_as_a_whole() {
    let data = vec![1u8, 97, 0, 0, 1, 0, 1, 1, 98, 0, 0, 2, 0];
    let mut decoder = Decoder::new(&data);
    assert_eq!(
        decode_many::<QuestionRecord>(&mut decoder, 2),
        Err(DecodeError::EndOfInput)
    );
    assert_eq!(decoder.offset(), 0);
}

#[test]
fn failed_decode_keeps_the_cursor() {
    let data = vec![1u8, 97, 0, 0, 99, 0, 1];
    let mut decoder = Decoder::new(&data);
    assert_eq!(
        QuestionRecord::decode(&mut decoder),
        Err(DecodeError::UnsupportedType)
    );
    assert_eq!(decoder.offset(), 0);
}
