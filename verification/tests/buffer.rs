use mindns::buffer::PacketBuffer;
use mindns::error::DnsError;

#[test]
fn new_buffer_is_zeroed_with_cursor_at_start() {
    let mut buffer = PacketBuffer::new();
    assert_eq!(buffer.pos(), 0);
    assert_eq!(buffer.peek_u8(0), Ok(0));
    assert_eq!(buffer.peek_u8(511), Ok(0));
    assert_eq!(buffer.read_u32(), Ok(0));
    assert_eq!(buffer.pos(), 4);
}

#[test]
fn write_and_read_are_big_endian() {
    let mut buffer = PacketBuffer::new();
    buffer.write_u8(0xAB).unwrap();
    buffer.write_u16(0x1234).unwrap();
    buffer.write_u32(0xDEADBEEF).unwrap();
    assert_eq!(buffer.pos(), 7);
    assert_eq!(
        buffer.read_range(0, 7).unwrap(),
        &[0xAB, 0x12, 0x34, 0xDE, 0xAD, 0xBE, 0xEF][..]
    );
    buffer.seek(0).unwrap();
    assert_eq!(buffer.read_u8(), Ok(0xAB));
    assert_eq!(buffer.read_u16(), Ok(0x1234));
    assert_eq!(buffer.read_u32(), Ok(0xDEADBEEF));
    assert_eq!(buffer.pos(), 7);
}

#[test]
fn cursor_may_reach_the_end_but_not_pass_it() {
    let mut buffer = PacketBuffer::new();
    assert_eq!(buffer.seek(512), Ok(()));
    assert_eq!(buffer.pos(), 512);
    assert_eq!(buffer.seek(513), Err(DnsError::BufferOverflow));
    assert_eq!(buffer.pos(), 512);
    assert_eq!(buffer.step(1), Err(DnsError::BufferOverflow));
    buffer.seek(500).unwrap();
    assert_eq!(buffer.step(12), Ok(()));
    assert_eq!(buffer.pos(), 512);
    buffer.seek(500).unwrap();
    assert_eq!(buffer.step(13), Err(DnsError::BufferOverflow));
    assert_eq!(buffer.pos(), 500);
    assert_eq!(buffer.step(usize::MAX), Err(DnsError::BufferOverflow));
}

#[test]
fn reads_at_the_end_overflow_and_leave_the_cursor() {
    let mut buffer = PacketBuffer::new();
    buffer.seek(512).unwrap();
    assert_eq!(buffer.read_u8(), Err(DnsError::BufferOverflow));
    buffer.seek(511).unwrap();
    assert_eq!(buffer.read_u16(), Err(DnsError::BufferOverflow));
    assert_eq!(buffer.pos(), 511);
    assert_eq!(buffer.read_u8(), Ok(0));
    buffer.seek(509).unwrap();
    assert_eq!(buffer.read_u32(), Err(DnsError::BufferOverflow));
    assert_eq!(buffer.pos(), 509);
    buffer.seek(508).unwrap();
    assert_eq!(buffer.read_u32(), Ok(0));
    assert_eq!(buffer.pos(), 512);
}

#[test]
fn writes_at_the_end_overflow_and_write_nothing() {
    let mut buffer = PacketBuffer::new();
    buffer.seek(511).unwrap();
    assert_eq!(buffer.write_u16(0xFFFF), Err(DnsError::BufferOverflow));
    assert_eq!(buffer.peek_u8(511), Ok(0));
    assert_eq!(buffer.pos(), 511);
    assert_eq!(buffer.write_u32(1), Err(DnsError::BufferOverflow));
    assert_eq!(buffer.write_u8(7), Ok(()));
    assert_eq!(buffer.write_u8(8), Err(DnsError::BufferOverflow));
    assert_eq!(buffer.peek_u8(511), Ok(7));
    buffer.seek(510).unwrap();
    assert_eq!(buffer.write_bytes(&[1, 2, 3]), Err(DnsError::BufferOverflow));
    assert_eq!(buffer.peek_u8(510), Ok(0));
    assert_eq!(buffer.write_bytes(&[1, 2]), Ok(()));
    assert_eq!(buffer.read_range(510, 2).unwrap(), &[1, 2][..]);
}

#[test]
fn peek_range_and_set_do_not_move_the_cursor() {
    let mut buffer = PacketBuffer::new();
    buffer.seek(3).unwrap();
    assert_eq!(buffer.set_u8(10, 0x55), Ok(()));
    assert_eq!(buffer.set_u16(20, 0xBEEF), Ok(()));
    assert_eq!(buffer.pos(), 3);
    assert_eq!(buffer.peek_u8(10), Ok(0x55));
    assert_eq!(buffer.read_range(20, 2).unwrap(), &[0xBE, 0xEF][..]);
    assert_eq!(buffer.pos(), 3);
    assert_eq!(buffer.peek_u8(512), Err(DnsError::BufferOverflow));
    assert_eq!(buffer.set_u8(512, 1), Err(DnsError::BufferOverflow));
    assert_eq!(buffer.set_u16(511, 1), Err(DnsError::BufferOverflow));
    assert_eq!(buffer.set_u16(510, 0x0102), Ok(()));
    assert_eq!(buffer.read_range(0, 512).unwrap().len(), 512);
    assert!(matches!(buffer.read_range(1, 512), Err(DnsError::BufferOverflow)));
    assert!(matches!(buffer.read_range(513, 0), Err(DnsError::BufferOverflow)));
    assert_eq!(buffer.read_range(512, 0).unwrap().len(), 0);
}

#[test]
fn load_pads_short_data_and_truncates_long_data() {
    let buffer = PacketBuffer::load(&[9, 8, 7]);
    assert_eq!(buffer.pos(), 0);
    assert_eq!(buffer.read_range(0, 5).unwrap(), &[9, 8, 7, 0, 0][..]);
    let long: Vec<u8> = (0..600).map(|i| (i % 251) as u8).collect();
    let buffer = PacketBuffer::load(&long);
    assert_eq!(buffer.read_range(0, 512).unwrap(), &long[..512]);
}
