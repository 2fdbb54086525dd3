use dns_resolver::buffer::BytePacketBuffer;
use dns_resolver::domain::Domain;
use dns_resolver::error::DnsError;
use dns_resolver::header::{Header, ResponseCode};
use dns_resolver::packet::Packet;
use dns_resolver::question::Question;
use dns_resolver::record::{Ipv4Addr, QueryType, Record};

fn create_packet_buffer() -> BytePacketBuffer {
    let buffer = [
        0x8a, 0x5b, 0x85, 0x80, 0x00, 0x01, 0x00, 0x01, 0x00, 0x00, 0x00, 0x00, 0x06, 0x67,
        0x6f, 0x6f, // 00000000
        0x67, 0x6c, 0x65, 0x03, 0x63, 0x6f, 0x6d, 0x00, 0x00, 0x01, 0x00, 0x01, 0x06, 0x67,
        0x6f, 0x6f, // 00000010
        0x67, 0x6c, 0x65, 0x03, 0x63, 0x6f, 0x6d, 0x00, 0x00, 0x01, 0x00, 0x01, 0x00, 0x00,
        0x00, 0x3c, // 00000020
        0x00, 0x04, 0x5d, 0x2e, 0x08, 0x5a, 0x8a, 0x5b, 0x81, 0x80, 0x00, 0x01, 0x00, 0x01,
        0x00, 0x00, // 00000030
        0x00, 0x00, 0x06, 0x67, 0x6f, 0x6f, 0x67, 0x6c, 0x65, 0x03, 0x63, 0x6f, 0x6d, 0x00,
        0x00, 0x01, // 00000040
        0x00, 0x01, 0xc0, 0x0c, 0x00, 0x01, 0x00, 0x01, 0x00, 0x00, 0x00, 0x64, 0x00, 0x04,
        0xac, 0xd9, // 00000050
        0xa0, 0x4e, // 00000060
    ];
    let mut packet_buffer = BytePacketBuffer::new();
    for (i, &e) in buffer.iter().enumerate() {
        packet_buffer.buf[i] = e;
    }
    packet_buffer
}

fn create_compressed_packet_buffer() -> BytePacketBuffer {
    let buffer = [
        0x86, 0x2a, 0x81, 0x80, 0x00, 0x01, 0x00, 0x01, 0x00, 0x00, 0x00, 0x00, 0x06, 0x67,
        0x6f, 0x6f, 0x67, 0x6c, 0x65, 0x03, 0x63, 0x6f, 0x6d, 0x00, 0x00, 0x01, 0x00, 0x01,
        0xc0, 0x0c, 0x00, 0x01, 0x00, 0x01, 0x00, 0x00, 0x01, 0x25, 0x00, 0x04, 0xd8, 0x3a,
        0xd3, 0x8e,
    ];
    let mut packet_buffer = BytePacketBuffer::new();
    for (i, &e) in buffer.iter().enumerate() {
        packet_buffer.buf[i] = e;
    }
    packet_buffer
}

fn create_cname_packet_buffer() -> BytePacketBuffer {
    let buffer = [
        0x8a, 0x5b, 0x85, 0x80, 0x00, 0x01, 0x00, 0x01, 0x00, 0x00, 0x00, 0x00, 0x06, 0x67,
        0x6f, 0x6f, // 00000000
        0x67, 0x6c, 0x65, 0x03, 0x63, 0x6f, 0x6d, 0x00, 0x00, 0x01, 0x00, 0x01, 0x06, 0x67,
        0x6f, 0x6f, // 00000010
        0x67, 0x6c, 0x65, 0x03, 0x63, 0x6f, 0x6d, 0x00, 0x00, 0x05, 0x00, 0x01, 0x00, 0x00,
        0x00, 0x3c, // 00000020
        0x00, 0x0a, 0x06, 0x67, 0x6f, 0x6f, 0x67, 0x6c, 0x65, 0x03, 0x63, 0x6f, 0x6d,
        0x00, // cname
        0x5d, 0x2e, 0x08, 0x5a, 0x8a, 0x5b, 0x81, 0x80, 0x00, 0x01, 0x00, 0x01, 0x00,
        0x00, // 00000030
        0x00, 0x00, 0x06, 0x67, 0x6f, 0x6f, 0x67, 0x6c, 0x65, 0x03, 0x63, 0x6f, 0x6d, 0x00,
        0x00, 0x01, // 00000040
        0x00, 0x01, 0xc0, 0x0c, 0x00, 0x01, 0x00, 0x01, 0x00, 0x00, 0x00, 0x64, 0x00, 0x04,
        0xac, 0xd9, // 00000050
        0xa0, 0x4e, // 00000060
    ];
    let mut packet_buffer = BytePacketBuffer::new();
    for (i, &e) in buffer.iter().enumerate() {
        packet_buffer.buf[i] = e;
    }
    packet_buffer
}

#[test]
fn header_should_create() {
    let header = Header::new();

    assert_eq!(header.id, 0);
    assert_eq!(header.opcode, 0);
}

#[test]
fn should_read_from_byte_packet() {
    let mut packet_buffer = create_packet_buffer();
    let mut header = Header::new();
    let result = header.read(&mut packet_buffer);

    assert_eq!(header.id, 35419);
    assert_eq!(header.query_response, true);
    assert_eq!(header.opcode, 0);
    assert_eq!(header.authoritative_answer, true);
    assert_eq!(header.truncated_message, false);
    assert_eq!(header.recursion_desired, true);
    assert_eq!(header.recursion_available, true);
    assert_eq!(header.reserved, 0);
    assert_eq!(header.response_code, ResponseCode::NOERROR);
    assert_eq!(header.question_count, 1);
    assert_eq!(header.answer_count, 1);
    assert_eq!(header.authority_count, 0);
    assert_eq!(header.additional_count, 0);
    assert_eq!(result, Ok(()));
}

#[test]
fn header_should_write() {
    let mut packet_buf = BytePacketBuffer::new();
    let mut header = Header::new();
    header.id = 35419;
    header.query_response = true;
    header.opcode = 0;
    header.authoritative_answer = true;
    header.truncated_message = false;
    header.recursion_desired = true;
    header.recursion_available = true;
    header.reserved = 0;
    header.response_code = ResponseCode::NOERROR;
    header.question_count = 1;
    header.answer_count = 1;
    header.authority_count = 0;
    header.additional_count = 0;

    let _ = header.write(&mut packet_buf);
    let bytes = [
        0x8a, 0x5b, 0x85, 0x80, 0x00, 0x01, 0x00, 0x01, 0x00, 0x00, 0x00, 0x00,
    ];

    let _ = packet_buf.seek(0);
    for e in bytes.iter() {
        assert_eq!(&packet_buf.read().unwrap(), e);
    }
}

#[test]
fn buf_should_create() {
    let packet_buffer = BytePacketBuffer::new();

    assert_eq!(packet_buffer.pos, 0);
    assert_eq!(packet_buffer.buf.len(), 512);
}

#[test]
fn should_read_byte() {
    let mut packet_buffer = BytePacketBuffer::new();
    let res = packet_buffer.read();

    assert_eq!(packet_buffer.pos, 1);
    assert_eq!(res, Ok(0));
}

#[test]
fn should_read_u16() {
    let mut packet_buffer = create_packet_buffer();

    let res = packet_buffer.read_u16();

    assert_eq!(packet_buffer.pos, 2);
    assert_eq!(res, Ok(35419));
}

#[test]
fn should_read_range() {
    let mut packet_buffer = BytePacketBuffer::new();
    let res = packet_buffer.read_range(0, 8);

    assert_eq!(res.unwrap().len(), 8);
}

#[test]
fn should_seek() {
    let mut packet_buffer = BytePacketBuffer::new();
    let _ = packet_buffer.read();

    assert_eq!(packet_buffer.pos, 1);

    let _ = packet_buffer.seek(12);
    assert_eq!(packet_buffer.pos, 12);
}

#[test]
fn buf_should_write() {
    let mut packet_buf = BytePacketBuffer::new();
    let _ = packet_buf.write(0x01);

    assert_eq!(packet_buf.pos(), 1);

    let _ = packet_buf.seek(0);
    assert_eq!(packet_buf.read().unwrap(), 1);
}

#[test]
fn question_should_create() {
    let question = Question::new(String::from("github.com"), QueryType::A);

    assert_eq!(question.name, "github.com");
    assert_eq!(question.qtype, QueryType::A);
}

#[test]
fn should_read() {
    let mut packet_buf = create_packet_buffer();
    packet_buf.seek(12).unwrap();
    let mut question = Question::new("".to_string(), QueryType::UNKNOWN(0));
    let _ = question.read(&mut packet_buf);

    assert_eq!(question.name, "google.com");
    assert_eq!(question.qtype, QueryType::A);
}

#[test]
fn question_should_write() {
    let mut packet_buf = BytePacketBuffer::new();
    packet_buf.seek(12).unwrap();
    let question = Question::new("google.com".to_string(), QueryType::A);

    let _ = question.write(&mut packet_buf);
    let buf = [
        0x06, 0x67, 0x6f, 0x6f, 0x67, 0x6c, 0x65, 0x03, 0x63, 0x6f, 0x6d, 0x00, 0x00, 0x01,
        0x00, 0x01,
    ];

    packet_buf.seek(12).unwrap();
    for e in buf.iter() {
        assert_eq!(&packet_buf.read().unwrap(), e);
    }
}

#[test]
fn should_read_question() {
    let mut packet_buffer = create_compressed_packet_buffer();
    packet_buffer.seek(12).unwrap();

    let domain = Domain::new("".to_string())
        .read(&mut packet_buffer)
        .unwrap();

    assert_eq!(domain, "google.com");
}

#[test]
fn should_read_answer() {
    let mut packet_buffer = create_compressed_packet_buffer();
    packet_buffer.seek(28).unwrap();

    let domain = Domain::new("".to_string())
        .read(&mut packet_buffer)
        .unwrap();

    assert_eq!(domain, "google.com");
}

#[test]
fn domain_should_write() {
    let mut packet_buf = BytePacketBuffer::new();
    let domain = Domain::new("google.com".to_string());
    let _ = domain.write(&mut packet_buf);

    let buf = [
        0x06, 0x67, 0x6f, 0x6f, 0x67, 0x6c, 0x65, 0x03, 0x63, 0x6f, 0x6d, 0x00,
    ];

    packet_buf.seek(0).unwrap();
    for e in buf.iter() {
        assert_eq!(&packet_buf.read().unwrap(), e);
    }
}

#[test]
fn should_read_a_record() {
    let mut packet_buffer = create_packet_buffer();
    let _ = packet_buffer.seek(28);
    let record = Record::read(&mut packet_buffer).unwrap();

    assert_eq!(
        record,
        Record::A {
            domain: "google.com".into(),
            ip: Ipv4Addr::new(93, 46, 8, 90),
            ttl: 60,
        }
    );
}

#[test]
fn should_read_cname_record() {
    let mut packet_buffer = create_cname_packet_buffer();
    let _ = packet_buffer.seek(28);
    let record = Record::read(&mut packet_buffer).unwrap();

    assert_eq!(
        record,
        Record::CNAME {
            domain: "google.com".into(),
            host: "google.com".into(),
            ttl: 60,
        }
    );
}

#[test]
fn should_write_a_record() {
    let mut packet_buf = BytePacketBuffer::new();
    let record = Record::A {
        domain: "google.com".to_string(),
        ip: Ipv4Addr::new(93, 46, 8, 90),
        ttl: 60,
    };

    let _ = record.write(&mut packet_buf);

    let buf = [
        0x06, 0x67, 0x6f, 0x6f, 0x67, 0x6c, 0x65, 0x03, 0x63, 0x6f, 0x6d, 0x00, 0x00, 0x01,
        0x00, 0x01, 0x00, 0x00, 0x00, 0x3c, 0x00, 0x04, 0x5d, 0x2e, 0x08, 0x5a,
    ];

    packet_buf.seek(0).unwrap();
    for b in buf.iter() {
        assert_eq!(&packet_buf.read().unwrap(), b);
    }
}

#[test]
fn should_write_cname_record() {
    let mut packet_buf = BytePacketBuffer::new();
    let record = Record::CNAME {
        domain: "google.com".into(),
        host: "google.com".into(),
        ttl: 60,
    };

    let _ = record.write(&mut packet_buf);

    let buf = [
        0x06, 0x67, 0x6f, 0x6f, 0x67, 0x6c, 0x65, 0x03, 0x63, 0x6f, 0x6d, 0x00, 0x00, 0x05,
        0x00, 0x01, 0x00, 0x00, 0x00, 0x3c, 0x00, 0x0c, 0x06, 0x67, 0x6f, 0x6f, 0x67, 0x6c,
        0x65, 0x03, 0x63, 0x6f, 0x6d, 0x00,
    ];

    packet_buf.seek(0).unwrap();
    for b in buf.iter() {
        assert_eq!(&packet_buf.read().unwrap(), b);
    }
}

#[test]
fn packet_should_write() {
    let mut packet = Packet::new();
    let mut header = Header::new();
    header.id = 35419;
    header.query_response = true;
    header.opcode = 0;
    header.authoritative_answer = true;
    header.truncated_message = false;
    header.recursion_desired = true;
    header.recursion_available = true;
    header.reserved = 0;
    header.question_count = 1;
    header.answer_count = 1;

    for _ in 0..header.question_count {
        let q = Question::new("google.com".to_string(), QueryType::A);
        packet.questions.push(q);
    }

    for _ in 0..header.answer_count {
        packet.answers.push(Record::A {
            domain: "google.com".to_string(),
            ip: Ipv4Addr::new(93, 46, 8, 90),
            ttl: 60,
        });
    }

    packet.header = header;

    let mut packet_buf = BytePacketBuffer::new();
    let _ = packet.write(&mut packet_buf);

    let buf = [
        0x8a, 0x5b, 0x85, 0x80, 0x00, 0x01, 0x00, 0x01, 0x00, 0x00, 0x00, 0x00, 0x06, 0x67,
        0x6f, 0x6f, // 00000000
        0x67, 0x6c, 0x65, 0x03, 0x63, 0x6f, 0x6d, 0x00, 0x00, 0x01, 0x00, 0x01, 0x06, 0x67,
        0x6f, 0x6f, // 00000010
        0x67, 0x6c, 0x65, 0x03, 0x63, 0x6f, 0x6d, 0x00, 0x00, 0x01, 0x00, 0x01, 0x00, 0x00,
        0x00, 0x3c, // 00000020
        0x00, 0x04, 0x5d, 0x2e, 0x08, 0x5a,
    ];

    packet_buf.seek(0).unwrap();

    for b in buf.iter() {
        assert_eq!(&packet_buf.read().unwrap(), b);
    }
}

#[test]
fn compressed_name_decodes_like_full_name() {
    // One message holds "google.com" twice: written out in the question
    // and as a compression pointer in the answer.  Both occurrences must
    // decode to the identical string.
    let mut packet_buffer = create_compressed_packet_buffer();
    let packet = Packet::from_buf(&mut packet_buffer).unwrap();

    assert_eq!(packet.questions[0].name, "google.com");
    assert_eq!(
        packet.answers[0],
        Record::A {
            domain: "google.com".into(),
            ip: Ipv4Addr::new(216, 58, 211, 142),
            ttl: 293,
        }
    );
}

#[test]
fn self_pointer_fails_without_looping() {
    // A pointer whose target equals its own offset makes no backward
    // progress and must be rejected, not followed forever.
    let mut packet_buffer = BytePacketBuffer::new();
    packet_buffer.buf[12] = 0xc0;
    packet_buffer.buf[13] = 0x0c;
    packet_buffer.seek(12).unwrap();

    let res = Domain::new("".to_string()).read(&mut packet_buffer);
    assert_eq!(res, Err(DnsError::MalformedCompressionPointer));
}

#[test]
fn forward_pointer_fails_without_looping() {
    let mut packet_buffer = BytePacketBuffer::new();
    packet_buffer.buf[12] = 0xc0;
    packet_buffer.buf[13] = 0x40;
    packet_buffer.seek(12).unwrap();

    let res = Domain::new("".to_string()).read(&mut packet_buffer);
    assert_eq!(res, Err(DnsError::MalformedCompressionPointer));
}

#[test]
fn pointer_cycle_fails_without_looping() {
    // 40 -> 20 is a legal backward hop, but 20 -> 40 points forward, so
    // the cycle is rejected at its second hop.
    let mut packet_buffer = BytePacketBuffer::new();
    packet_buffer.buf[40] = 0xc0;
    packet_buffer.buf[41] = 20;
    packet_buffer.buf[20] = 0xc0;
    packet_buffer.buf[21] = 40;
    packet_buffer.seek(40).unwrap();

    let res = Domain::new("".to_string()).read(&mut packet_buffer);
    assert_eq!(res, Err(DnsError::MalformedCompressionPointer));
}

#[test]
fn malformed_pointer_fails_whole_message() {
    let mut packet_buffer = BytePacketBuffer::new();
    packet_buffer.buf[5] = 1; // question_count = 1
    packet_buffer.buf[12] = 0xc0;
    packet_buffer.buf[13] = 0x0c;

    let res = Packet::from_buf(&mut packet_buffer);
    assert!(matches!(res, Err(DnsError::MalformedMessage)));
}

#[test]
fn reads_past_capacity_fail() {
    let mut packet_buffer = BytePacketBuffer::new();
    packet_buffer.seek(511).unwrap();
    assert_eq!(packet_buffer.read_u16(), Err(DnsError::BufferOverrun));
    assert_eq!(packet_buffer.seek(512), Err(DnsError::BufferOverrun));
    assert_eq!(packet_buffer.get(512), Err(DnsError::BufferOverrun));
    assert_eq!(packet_buffer.read_range(511, 2), Err(DnsError::BufferOverrun));
}

#[test]
fn whole_capacity_is_usable() {
    // The last byte of the datagram is writable, a two-byte write can
    // fill the last two bytes, and a range may end exactly at the
    // capacity; only going past it fails.
    let mut packet_buffer = BytePacketBuffer::new();
    packet_buffer.seek(510).unwrap();
    assert_eq!(packet_buffer.write_u16(0xabcd), Ok(()));
    assert_eq!(packet_buffer.pos(), 512);
    assert_eq!(packet_buffer.write(0x01), Err(DnsError::BufferOverrun));
    assert_eq!(packet_buffer.get(510), Ok(0xab));
    assert_eq!(packet_buffer.get(511), Ok(0xcd));

    packet_buffer.seek(511).unwrap();
    assert_eq!(packet_buffer.write(0x7f), Ok(()));
    assert_eq!(packet_buffer.get(511), Ok(0x7f));
    assert_eq!(packet_buffer.pos(), 512);
    assert_eq!(packet_buffer.write_u16(0x0102), Err(DnsError::BufferOverrun));

    let range = packet_buffer.read_range(0, 512).unwrap();
    assert_eq!(range.len(), 512);
    assert_eq!(range[511], 0x7f);
    assert_eq!(packet_buffer.read_range(1, 512), Err(DnsError::BufferOverrun));
}

#[test]
fn encoding_an_oversized_name_fails() {
    let mut packet_buf = BytePacketBuffer::new();
    let long_label = "a".repeat(600);
    let res = Domain::new(long_label).write(&mut packet_buf);
    assert_eq!(res, Err(DnsError::BufferOverrun));
    // the buffer is untouched
    assert_eq!(packet_buf.pos(), 0);
    assert!(packet_buf.buf.iter().all(|&b| b == 0));
}

#[test]
fn ns_rdata_length_is_true_encoded_length() {
    // The target host is much longer than the owner name plus two: the
    // rdata length must still equal the encoded name's true byte length.
    let mut packet_buf = BytePacketBuffer::new();
    let record = Record::NS {
        domain: "a.b".to_string(),
        host: "ns.much-longer-example.com".to_string(),
        ttl: 60,
    };
    record.write(&mut packet_buf).unwrap();

    // owner "a.b" encodes to 5 bytes; type, class, ttl, length take 10.
    let rdata_len = ((packet_buf.buf[13] as u16) << 8) | packet_buf.buf[14] as u16;
    // "ns" + "much-longer-example" + "com" with length octets and terminator
    let expected = 1 + 2 + 1 + 19 + 1 + 3 + 1;
    assert_eq!(rdata_len, expected);

    // and the record still decodes to itself
    packet_buf.seek(0).unwrap();
    let back = Record::read(&mut packet_buf).unwrap();
    assert_eq!(back, record);
}

#[test]
fn unknown_record_keeps_section_alignment() {
    // An unknown record type is skipped over its declared rdata length,
    // so a record after it is still decoded correctly.
    let mut packet = Packet::new();
    packet.answers.push(Record::UNKNOWN {
        domain: "x.y".to_string(),
        qtype: 99,
        ttl: 5,
        len: 7,
    });
    packet.answers.push(Record::A {
        domain: "z.w".to_string(),
        ip: Ipv4Addr::new(1, 2, 3, 4),
        ttl: 9,
    });
    let mut packet_buf = BytePacketBuffer::new();
    packet.write(&mut packet_buf).unwrap();

    let decoded = Packet::from_buf(&mut packet_buf).unwrap();
    assert_eq!(decoded.answers.len(), 2);
    assert_eq!(
        decoded.answers[0],
        Record::UNKNOWN {
            domain: "x.y".to_string(),
            qtype: 99,
            ttl: 5,
            len: 7,
        }
    );
    assert_eq!(
        decoded.answers[1],
        Record::A {
            domain: "z.w".to_string(),
            ip: Ipv4Addr::new(1, 2, 3, 4),
            ttl: 9,
        }
    );
}

#[test]
fn single_answer_message_round_trips_to_identical_bytes() {
    // Decode then encode reproduces the original bytes exactly for a
    // well-formed single-question, single-A-answer message.
    let mut first = create_packet_buffer();
    let packet = Packet::from_buf(&mut first).unwrap();

    let mut second = BytePacketBuffer::new();
    packet.write(&mut second).unwrap();

    let encoded_len = second.pos();
    assert!(encoded_len > 0);
    assert_eq!(first.buf[..encoded_len], second.buf[..encoded_len]);
}

#[test]
fn ttl_halves_with_overlapping_bits_survive() {
    // A time-to-live whose high and low halves both have bits set must
    // survive the encode/decode cycle unchanged.
    let ttl: u32 = 0x0001_0203;
    let record = Record::A {
        domain: "t.v".to_string(),
        ip: Ipv4Addr::new(9, 8, 7, 6),
        ttl,
    };
    let mut packet_buf = BytePacketBuffer::new();
    record.write(&mut packet_buf).unwrap();
    packet_buf.seek(0).unwrap();
    let back = Record::read(&mut packet_buf).unwrap();
    assert_eq!(back, record);
}

#[test]
fn valid_utf8_label_round_trips() {
    // A label of valid non-ASCII UTF-8 survives write-then-read exactly.
    let mut packet_buf = BytePacketBuffer::new();
    let name = "caf\u{e9}.example";
    Domain::new(name.to_string()).write(&mut packet_buf).unwrap();
    assert_eq!(packet_buf.get(0), Ok(5)); // "caf\u{e9}" is five bytes
    packet_buf.seek(0).unwrap();
    let back = Domain::new("".to_string()).read(&mut packet_buf).unwrap();
    assert_eq!(back, name);
}

#[test]
fn invalid_label_bytes_become_replacement_characters() {
    let mut packet_buffer = BytePacketBuffer::new();
    packet_buffer.buf[0] = 2;
    packet_buffer.buf[1] = 0xff;
    packet_buffer.buf[2] = b'A';
    packet_buffer.buf[3] = 0;

    let name = Domain::new("".to_string()).read(&mut packet_buffer).unwrap();
    assert_eq!(name, "\u{fffd}A");
}

#[test]
fn enumeration_values_round_trip() {
    assert_eq!(QueryType::value_of(1), QueryType::A);
    assert_eq!(QueryType::value_of(2), QueryType::NS);
    assert_eq!(QueryType::value_of(5), QueryType::CNAME);
    assert_eq!(QueryType::value_of(15), QueryType::MX);
    assert_eq!(QueryType::value_of(28), QueryType::AAAA);
    assert_eq!(QueryType::value_of(99), QueryType::UNKNOWN(99));
    assert_eq!(QueryType::UNKNOWN(123).num_value(), 123);
    assert_eq!(QueryType::MX.num_value(), 15);

    assert_eq!(ResponseCode::value_of(0), ResponseCode::NOERROR);
    assert_eq!(ResponseCode::value_of(3), ResponseCode::NXDOMAIN);
    assert_eq!(ResponseCode::value_of(5), ResponseCode::REFUSED);
    assert_eq!(ResponseCode::value_of(9), ResponseCode::UNKNOWN(9));
    assert_eq!(ResponseCode::UNKNOWN(9).num_value(), 9);
    assert_eq!(ResponseCode::SERVFAIL.num_value(), 2);
}

#[test]
fn oversized_section_fails_to_encode() {
    let mut packet = Packet::new();
    for _ in 0..65536usize {
        packet.answers.push(Record::UNKNOWN {
            domain: String::new(),
            qtype: 99,
            ttl: 0,
            len: 0,
        });
    }
    let mut packet_buf = BytePacketBuffer::new();
    assert_eq!(packet.write(&mut packet_buf), Err(DnsError::MalformedMessage));
    assert_eq!(packet_buf.pos(), 0);
}
