use usb_capture::fields::PacketFields;

#[test]
fn test_parse_sof() {
    let p = PacketFields::from_packet(&vec![0xa5, 0xde, 0x1e]);
    if let PacketFields::SOF(sof) = p {
        assert!(sof.frame_number() == 1758);
        assert!(sof.crc() == 0x03);
    } else {
        panic!("Expected SOF but got {:?}", p);
    }
}

#[test]
fn test_parse_setup() {
    let p = PacketFields::from_packet(&vec![0x2d, 0x02, 0xa8]);
    if let PacketFields::Token(tok) = p {
        assert!(tok.device_address() == 2);
        assert!(tok.endpoint_number() == 0);
        assert!(tok.crc() == 0x15);
    } else {
        panic!("Expected Token but got {:?}", p);
    }
}

#[test]
fn test_parse_in() {
    let p = PacketFields::from_packet(&vec![0x69, 0x82, 0x18]);
    if let PacketFields::Token(tok) = p {
        assert!(tok.device_address() == 2);
        assert!(tok.endpoint_number() == 1);
        assert!(tok.crc() == 0x03);
    } else {
        panic!("Expected Token but got {:?}", p);
    }
}

#[test]
fn test_parse_data() {
    let p = PacketFields::from_packet(&vec![0xc3, 0x40, 0x01, 0x01, 0x00, 0x00, 0x00, 0x00, 0x00, 0xaa, 0xd5]);
    if let PacketFields::Data(data) = p {
        assert!(data.crc == 0xd5aa);
    } else {
        panic!("Expected Data but got {:?}", p);
    }
}

#[test]
fn parse_other_pids_have_no_fields() {
    assert!(matches!(PacketFields::from_packet(&[0xd2]), PacketFields::Plain));
    assert!(matches!(PacketFields::from_packet(&[0x87, 0x00, 0x00]), PacketFields::Plain));
    assert!(matches!(PacketFields::from_packet(&[0x0f, 0x00, 0x00]), PacketFields::Plain));
    assert!(matches!(PacketFields::from_packet(&[0x00]), PacketFields::Plain));
}

#[test]
fn parse_short_packets_read_missing_bytes_as_zero() {
    if let PacketFields::SOF(sof) = PacketFields::from_packet(&[0xa5]) {
        assert_eq!(sof.frame_number(), 0);
        assert_eq!(sof.crc(), 0);
    } else {
        panic!("expected SOF");
    }
    if let PacketFields::Data(d) = PacketFields::from_packet(&[0x4b]) {
        assert_eq!(d.crc, 0x4b00);
    } else {
        panic!("expected Data");
    }
}

#[test]
fn parse_round_trip_sof_and_token() {
    for frame in [0u16, 1, 1000, 2047] {
        for crc in [0u16, 5, 31] {
            let word = frame + crc * 2048;
            let p = PacketFields::from_packet(&[0xa5, (word & 0xff) as u8, (word >> 8) as u8]);
            if let PacketFields::SOF(sof) = p {
                assert_eq!(sof.frame_number(), frame);
                assert_eq!(sof.crc() as u16, crc);
            } else {
                panic!("expected SOF");
            }
        }
    }
    for addr in [0u16, 2, 127] {
        for ep in [0u16, 1, 15] {
            let word = addr + ep * 128 + 17 * 2048;
            let p = PacketFields::from_packet(&[0xe1, (word & 0xff) as u8, (word >> 8) as u8]);
            if let PacketFields::Token(t) = p {
                assert_eq!(t.device_address() as u16, addr);
                assert_eq!(t.endpoint_number() as u16, ep);
                assert_eq!(t.crc(), 17);
            } else {
                panic!("expected Token");
            }
        }
    }
}
