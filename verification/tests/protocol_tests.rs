use statussentinel::protocol::{create_handshake_packet, frame_packet};

#[test]
fn frame_prefixes_payload_with_its_length() {
    assert_eq!(frame_packet(&[0x00]), vec![0x01, 0x00]);
    assert_eq!(frame_packet(&[]), vec![0x00]);
    let payload: Vec<u8> = (0..200u16).map(|b| b as u8).collect();
    let framed = frame_packet(&payload);
    assert_eq!(&framed[0..2], &[0xc8, 0x01]);
    assert_eq!(&framed[2..], &payload[..]);
}

#[test]
fn handshake_packet_layout() {
    let host = "mc.example.com";
    let port: u16 = 25565;
    let packet = create_handshake_packet(host, port);

    let mut payload: Vec<u8> = Vec::new();
    payload.push(0x00); // protocol-state tag
    payload.extend_from_slice(&[0xfc, 0x05]); // protocol version 764
    payload.push(host.len() as u8); // host length (fits one varint byte)
    payload.extend_from_slice(host.as_bytes());
    payload.extend_from_slice(&port.to_be_bytes()); // big-endian port
    payload.push(0x01); // status next-state marker

    let mut expected = vec![payload.len() as u8];
    expected.extend_from_slice(&payload);
    assert_eq!(packet, expected);
}

#[test]
fn handshake_packet_port_is_big_endian() {
    let packet = create_handshake_packet("h", 0x1234);
    // payload: 00 fc 05 01 'h' 12 34 01
    assert_eq!(packet, vec![0x08, 0x00, 0xfc, 0x05, 0x01, b'h', 0x12, 0x34, 0x01]);
}
