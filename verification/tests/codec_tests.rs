use statussentinel::codec::{read_varint, write_varint, DecodeError};

fn encode(n: u32) -> Vec<u8> {
    let mut buf = Vec::new();
    write_varint(n, &mut buf);
    buf
}

#[test]
fn varint_round_trip_examples() {
    let cases: [u32; 12] = [
        0,
        1,
        2,
        127,
        128,
        300,
        764,
        16383,
        16384,
        2097151,
        268435456,
        u32::MAX,
    ];
    for &n in cases.iter() {
        let bytes = encode(n);
        let (value, consumed) = read_varint(&bytes).unwrap();
        assert_eq!(value, n);
        assert_eq!(consumed, bytes.len());
    }
}

#[test]
fn varint_encode_zero_is_one_byte() {
    assert_eq!(encode(0), vec![0x00]);
}

#[test]
fn varint_encode_known_values() {
    assert_eq!(encode(1), vec![0x01]);
    assert_eq!(encode(127), vec![0x7f]);
    assert_eq!(encode(128), vec![0x80, 0x01]);
    assert_eq!(encode(300), vec![0xac, 0x02]);
    assert_eq!(encode(764), vec![0xfc, 0x05]);
    assert_eq!(encode(u32::MAX), vec![0xff, 0xff, 0xff, 0xff, 0x0f]);
}

#[test]
fn varint_overlong_chain_rejected() {
    let bytes = [0x80u8, 0x80, 0x80, 0x80, 0x80];
    assert_eq!(read_varint(&bytes), Err(DecodeError::Protocol));
    let bytes = [0xffu8, 0xff, 0xff, 0xff, 0xff, 0x00];
    assert_eq!(read_varint(&bytes), Err(DecodeError::Protocol));
}

#[test]
fn varint_exhausted_input_rejected() {
    assert_eq!(read_varint(&[]), Err(DecodeError::Transport));
    assert_eq!(read_varint(&[0x80]), Err(DecodeError::Transport));
    assert_eq!(read_varint(&[0x80, 0x80]), Err(DecodeError::Transport));
}

#[test]
fn varint_decode_consumes_only_the_value() {
    let bytes = [0x05u8, 0xff, 0xff];
    assert_eq!(read_varint(&bytes), Ok((5, 1)));
    let bytes = [0xacu8, 0x02, 0x07];
    assert_eq!(read_varint(&bytes), Ok((300, 2)));
}

#[test]
fn varint_fifth_byte_may_terminate() {
    // Five bytes where the fifth clears the continuation flag decode fine.
    let bytes = [0x80u8, 0x80, 0x80, 0x80, 0x01];
    assert_eq!(read_varint(&bytes), Ok((1 << 28, 5)));
}
