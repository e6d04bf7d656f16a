use mindns::buffer::PacketBuffer;
use mindns::error::DnsError;
use mindns::name::encode_name;

fn buffer_with(bytes: &[u8]) -> PacketBuffer {
    PacketBuffer::load(bytes)
}

#[test]
fn name_is_encoded_as_length_prefixed_labels() {
    assert_eq!(
        encode_name("google.com"),
        Ok(vec![6, b'g', b'o', b'o', b'g', b'l', b'e', 3, b'c', b'o', b'm', 0])
    );
    let mut buffer = PacketBuffer::new();
    buffer.seek(5).unwrap();
    buffer.write_qname("a.bc").unwrap();
    assert_eq!(buffer.pos(), 11);
    assert_eq!(buffer.read_range(5, 6).unwrap(), &[1, b'a', 2, b'b', b'c', 0][..]);
}

#[test]
fn empty_label_is_written_as_a_zero_length() {
    assert_eq!(encode_name(""), Ok(vec![0, 0]));
    assert_eq!(encode_name("."), Ok(vec![0, 0, 0]));
    assert_eq!(encode_name("a."), Ok(vec![1, b'a', 0, 0]));
    assert_eq!(encode_name("a..b"), Ok(vec![1, b'a', 0, 1, b'b', 0]));
}

#[test]
fn name_with_an_empty_label_is_read_back_up_to_that_label() {
    let mut buffer = PacketBuffer::new();
    buffer.write_qname("a..b").unwrap();
    assert_eq!(buffer.pos(), 6);
    buffer.seek(0).unwrap();
    assert_eq!(buffer.read_qname(), Ok("a".to_string()));
    assert_eq!(buffer.pos(), 3);
}

#[test]
fn label_of_63_bytes_is_the_longest() {
    let label63 = "x".repeat(63);
    let wire = encode_name(&label63).unwrap();
    assert_eq!(wire.len(), 65);
    assert_eq!(wire[0], 63);
    let label64 = "x".repeat(64);
    assert_eq!(encode_name(&label64), Err(DnsError::LabelTooLong));
    let name = format!("ok.{}.com", label64);
    let mut buffer = PacketBuffer::new();
    assert_eq!(buffer.write_qname(&name), Err(DnsError::LabelTooLong));
    assert_eq!(buffer.pos(), 0);
    assert_eq!(buffer.peek_u8(0), Ok(0));
}

#[test]
fn name_that_does_not_fit_is_not_written() {
    let mut buffer = PacketBuffer::new();
    buffer.seek(505).unwrap();
    assert_eq!(buffer.write_qname("abcdefg"), Err(DnsError::BufferOverflow));
    assert_eq!(buffer.pos(), 505);
    assert_eq!(buffer.peek_u8(505), Ok(0));
    assert_eq!(buffer.write_qname("abcde"), Ok(()));
    assert_eq!(buffer.pos(), 512);
}

#[test]
fn name_is_decoded_and_lowercased() {
    let mut buffer = buffer_with(&[3, b'W', b'w', b'W', 7, b'E', b'x', b'a', b'm', b'p', b'l', b'e', 3, b'c', b'o', b'm', 0, 0xFF]);
    assert_eq!(buffer.read_qname(), Ok("www.example.com".to_string()));
    assert_eq!(buffer.pos(), 17);
}

#[test]
fn root_name_is_the_empty_string() {
    let mut buffer = buffer_with(&[0, 1, 2]);
    assert_eq!(buffer.read_qname(), Ok(String::new()));
    assert_eq!(buffer.pos(), 1);
}

#[test]
fn encoded_name_is_decoded_to_itself() {
    let mut buffer = PacketBuffer::new();
    buffer.write_qname("mail.example.org").unwrap();
    let end = buffer.pos();
    buffer.seek(0).unwrap();
    assert_eq!(buffer.read_qname(), Ok("mail.example.org".to_string()));
    assert_eq!(buffer.pos(), end);
}

#[test]
fn compression_pointer_into_question_is_followed() {
    // Twelve bytes of header, the name at offset 12, then a pointer to it.
    let mut bytes = vec![0u8; 12];
    bytes.extend_from_slice(&[3, b'f', b'o', b'o', 4, b't', b'e', b's', b't', 0]);
    let pointer_at = bytes.len();
    bytes.extend_from_slice(&[0xC0, 0x0C, 0xAA]);
    let mut buffer = buffer_with(&bytes);
    buffer.seek(pointer_at).unwrap();
    assert_eq!(buffer.read_qname(), Ok("foo.test".to_string()));
    assert_eq!(buffer.pos(), pointer_at + 2);
}

#[test]
fn label_before_pointer_is_joined_with_the_target() {
    let mut bytes = vec![0u8; 12];
    bytes.extend_from_slice(&[4, b't', b'e', b's', b't', 0]);
    let at = bytes.len();
    bytes.extend_from_slice(&[3, b'w', b'w', b'w', 0xC0, 0x0C]);
    let mut buffer = buffer_with(&bytes);
    buffer.seek(at).unwrap();
    assert_eq!(buffer.read_qname(), Ok("www.test".to_string()));
    assert_eq!(buffer.pos(), at + 6);
}

#[test]
fn pointer_to_itself_is_a_bad_packet() {
    let mut bytes = vec![0u8; 12];
    bytes.extend_from_slice(&[0xC0, 0x0C]);
    let mut buffer = buffer_with(&bytes);
    buffer.seek(12).unwrap();
    assert_eq!(buffer.read_qname(), Err(DnsError::BadPacket));
    assert_eq!(buffer.pos(), 12);
}

#[test]
fn five_jumps_are_followed_and_the_sixth_is_refused() {
    // A name at offset 0, and a chain of pointers, each to the one before.
    let mut bytes = vec![1, b'a', 0, 0];
    for hop in 0..6u8 {
        let target = if hop == 0 { 0 } else { 4 + 2 * (hop - 1) };
        bytes.extend_from_slice(&[0xC0, target]);
    }
    let mut buffer = buffer_with(&bytes);
    // The pointer at offset 4 + 2 * 4 starts a chain of five jumps.
    buffer.seek(12).unwrap();
    assert_eq!(buffer.read_qname(), Ok("a".to_string()));
    assert_eq!(buffer.pos(), 14);
    // The next one starts a chain of six.
    buffer.seek(14).unwrap();
    assert_eq!(buffer.read_qname(), Err(DnsError::BadPacket));
    assert_eq!(buffer.pos(), 14);
}

#[test]
fn name_that_runs_off_the_buffer_overflows() {
    let mut buffer = PacketBuffer::new();
    buffer.set_u8(510, 5).unwrap();
    buffer.seek(510).unwrap();
    assert_eq!(buffer.read_qname(), Err(DnsError::BufferOverflow));
    assert_eq!(buffer.pos(), 510);
    // A pointer whose second byte lies behind the end.
    buffer.set_u8(511, 0xC0).unwrap();
    buffer.seek(511).unwrap();
    assert_eq!(buffer.read_qname(), Err(DnsError::BufferOverflow));
    // A pointer to an offset behind the end.
    let mut buffer = buffer_with(&[0xC3, 0x00]);
    assert_eq!(buffer.read_qname(), Err(DnsError::BufferOverflow));
    // At the very end nothing can be read.
    buffer.seek(512).unwrap();
    assert_eq!(buffer.read_qname(), Err(DnsError::BufferOverflow));
}

#[test]
fn long_label_on_the_wire_is_read_as_a_label() {
    let mut bytes = vec![100u8];
    bytes.extend(std::iter::repeat(b'z').take(100));
    bytes.push(0);
    let mut buffer = buffer_with(&bytes);
    assert_eq!(buffer.read_qname(), Ok("z".repeat(100)));
    assert_eq!(buffer.pos(), 102);
}
