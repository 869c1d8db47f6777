use irq_scheme::word::load_word;
use irq_scheme::word::store_word;
use irq_scheme::word::word_size;
use irq_scheme::word::ByteOrder;

#[test]
fn a_word_is_as_wide_as_usize() {
    assert_eq!(word_size(), std::mem::size_of::<usize>());
}

#[test]
fn store_word_little_endian_puts_the_low_byte_first() {
    let mut buffer = vec![0xaa_u8; word_size()];
    store_word(ByteOrder::LittleEndian, 0x0102_0304, &mut buffer);
    assert_eq!(&buffer[..4], &[0x04, 0x03, 0x02, 0x01]);
    assert!(buffer[4..].iter().all(|byte| *byte == 0));
    assert_eq!(buffer, 0x0102_0304usize.to_le_bytes().to_vec());
}

#[test]
fn store_word_big_endian_puts_the_low_byte_last() {
    let size = word_size();
    let mut buffer = vec![0xaa_u8; size];
    store_word(ByteOrder::BigEndian, 0x0102_0304, &mut buffer);
    assert_eq!(&buffer[size - 4..], &[0x01, 0x02, 0x03, 0x04]);
    assert!(buffer[..size - 4].iter().all(|byte| *byte == 0));
    assert_eq!(buffer, 0x0102_0304usize.to_be_bytes().to_vec());
}

#[test]
fn store_word_leaves_the_rest_of_the_buffer() {
    let size = word_size();
    let mut buffer = vec![0x5a_u8; size + 3];
    store_word(ByteOrder::LittleEndian, 1, &mut buffer);
    assert_eq!(buffer[0], 1);
    assert!(buffer[1..size].iter().all(|byte| *byte == 0));
    assert_eq!(&buffer[size..], &[0x5a, 0x5a, 0x5a]);
    store_word(ByteOrder::BigEndian, 2, &mut buffer);
    assert_eq!(buffer[size - 1], 2);
    assert!(buffer[..size - 1].iter().all(|byte| *byte == 0));
    assert_eq!(&buffer[size..], &[0x5a, 0x5a, 0x5a]);
}

#[test]
fn store_word_writes_the_extremes() {
    let size = word_size();
    for order in [ByteOrder::LittleEndian, ByteOrder::BigEndian] {
        let mut buffer = vec![0x33_u8; size];
        store_word(order, 0, &mut buffer);
        assert_eq!(buffer, vec![0u8; size]);
        store_word(order, usize::MAX, &mut buffer);
        assert_eq!(buffer, vec![0xffu8; size]);
    }
}

#[test]
fn load_word_reads_both_orders() {
    let size = word_size();
    let mut little = vec![0u8; size];
    little[0] = 0x78;
    little[1] = 0x56;
    little[2] = 0x34;
    little[3] = 0x12;
    assert_eq!(load_word(ByteOrder::LittleEndian, &little), 0x1234_5678);
    let mut big = vec![0u8; size];
    big[size - 1] = 0x78;
    big[size - 2] = 0x56;
    big[size - 3] = 0x34;
    big[size - 4] = 0x12;
    assert_eq!(load_word(ByteOrder::BigEndian, &big), 0x1234_5678);
}

#[test]
fn load_word_ignores_what_follows_the_word() {
    let size = word_size();
    let mut buffer = vec![0u8; size + 2];
    buffer[0] = 9;
    buffer[size] = 0xff;
    buffer[size + 1] = 0xff;
    assert_eq!(load_word(ByteOrder::LittleEndian, &buffer), 9);
    let mut buffer = vec![0u8; size + 2];
    buffer[size - 1] = 9;
    buffer[size] = 0xff;
    buffer[size + 1] = 0xff;
    assert_eq!(load_word(ByteOrder::BigEndian, &buffer), 9);
}

#[test]
fn load_word_matches_std() {
    let values = [0usize, 1, 255, 256, 0xdead_beef, usize::MAX / 3, usize::MAX - 1, usize::MAX];
    for value in values {
        assert_eq!(load_word(ByteOrder::LittleEndian, &value.to_le_bytes()), value);
        assert_eq!(load_word(ByteOrder::BigEndian, &value.to_be_bytes()), value);
    }
}

#[test]
fn a_word_survives_the_round_trip() {
    let values = [0usize, 1, 255, 256, 65535, 65536, 0xdead_beef, usize::MAX / 7, usize::MAX];
    for order in [ByteOrder::LittleEndian, ByteOrder::BigEndian] {
        for value in values {
            let mut buffer = vec![0x11_u8; word_size() + 1];
            store_word(order, value, &mut buffer);
            assert_eq!(load_word(order, &buffer), value);
        }
    }
}

#[test]
fn the_probe_tells_the_orders_apart() {
    assert_eq!(ByteOrder::of_probe([1, 0]), ByteOrder::LittleEndian);
    assert_eq!(ByteOrder::of_probe([0, 1]), ByteOrder::BigEndian);
}

#[test]
fn the_native_order_is_the_machines() {
    let order = ByteOrder::native();
    let value: usize = 0x0a0b_0c0d;
    let mut buffer = vec![0u8; word_size()];
    store_word(order, value, &mut buffer);
    assert_eq!(buffer, value.to_ne_bytes().to_vec());
    assert_eq!(load_word(order, &value.to_ne_bytes()), value);
}
