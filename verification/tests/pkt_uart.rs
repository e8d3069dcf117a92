//! Packet-UART framing: checksum, encoder and resynchronising decoder.

use devconsole::pkt_uart::{encode_packet, PktUARTRx, RD16};

#[test]
fn rd16_starts_at_seed() {
    let rd = RD16::new();
    assert_eq!(rd.get(), 36683);
}

#[test]
fn rd16_update_is_deterministic() {
    let mut a = RD16::new();
    let mut b = RD16::new();
    a.update(0x07);
    b.update(0x07);
    assert_eq!(a.get(), b.get());
    assert_eq!(a.get(), 36420);
}

#[test]
fn rd16_update_slice_folds_update() {
    let data = [0x10u8, 0x20, 0x55, 0xaa, 0x00, 0xff];
    let mut folded = RD16::new();
    for &b in data.iter() {
        folded.update(b);
    }
    let mut sliced = RD16::new();
    sliced.update_slice(&data);
    assert_eq!(sliced.get(), folded.get());
}

#[test]
fn rd16_known_values() {
    let mut rd = RD16::new();
    rd.update_slice(&[0x10, 0x20]);
    assert_eq!(rd.get(), 0x79a3);
    assert_eq!(RD16::from_data(&[0xa5]).get(), 0x063a);
    assert_eq!(RD16::from_data(&[]).get(), 36683);
}

#[test]
fn rd16_copy_and_append_does_not_mutate() {
    let base = RD16::from_data(&[0x10]);
    let appended = base.copy_and_append(&[0x20]);
    assert_eq!(appended.get(), 0x79a3);
    let mut direct = base;
    direct.update(0x20);
    assert_eq!(direct.get(), appended.get());
}

#[test]
fn rd16_set_and_reset() {
    let mut rd = RD16::new();
    rd.set(1234);
    assert_eq!(rd.get(), 1234);
    rd.reset();
    assert_eq!(rd.get(), 36683);
}

#[test]
fn encoder_builds_the_exact_frame() {
    let pkt = encode_packet(0x03, &[0x10, 0x20]);
    assert_eq!(pkt, vec![0x55, 0xaa, 0x5a, 0x03, 0x00, 0x02, 0x79, 0xa3, 0x10, 0x20]);
}

#[test]
fn encoder_empty_payload() {
    let pkt = encode_packet(0x01, &[]);
    assert_eq!(pkt, vec![0x55, 0xaa, 0x5a, 0x01, 0x00, 0x00, 0x8f, 0x4b]);
}

#[test]
fn decoder_round_trips_a_frame() {
    let mut rx = PktUARTRx::new();
    let frames = rx.push_bytes(&encode_packet(0x11, &[1, 2, 3, 4, 5]));
    assert_eq!(frames, vec![(0x11, vec![1, 2, 3, 4, 5])]);
}

#[test]
fn decoder_round_trips_payload_containing_preamble() {
    // the length field is honoured: a preamble inside the payload does
    // not cause misframing
    let payload = vec![0x55, 0xaa, 0x5a, 0x00, 0x55, 0xaa];
    let mut rx = PktUARTRx::new();
    let frames = rx.push_bytes(&encode_packet(0x42, &payload));
    assert_eq!(frames, vec![(0x42, payload)]);
}

#[test]
fn decoder_resynchronises_after_garbage() {
    // S5: FF FF 55 AA 5A 07 00 01 <ck> A5 yields (addr 7, [A5])
    let stream = [0xff, 0xff, 0x55, 0xaa, 0x5a, 0x07, 0x00, 0x01, 0x06, 0x3a, 0xa5];
    let mut rx = PktUARTRx::new();
    let frames = rx.push_bytes(&stream);
    assert_eq!(frames, vec![(0x07, vec![0xa5])]);
}

#[test]
fn decoder_resynchronises_after_partial_preamble_garbage() {
    let mut stream = vec![0x55, 0xaa, 0x00, 0x55];
    stream.extend(encode_packet(0x09, &[0xbe, 0xef]));
    let mut rx = PktUARTRx::new();
    let frames = rx.push_bytes(&stream);
    assert_eq!(frames, vec![(0x09, vec![0xbe, 0xef])]);
}

#[test]
fn decoder_drops_frame_with_bad_checksum() {
    let mut bad = encode_packet(0x07, &[0xa5]);
    bad[7] = bad[7].wrapping_add(1);
    let mut rx = PktUARTRx::new();
    assert_eq!(rx.push_bytes(&bad), vec![]);
    // and it hunts again: a good frame right after still decodes
    let frames = rx.push_bytes(&encode_packet(0x07, &[0xa5]));
    assert_eq!(frames, vec![(0x07, vec![0xa5])]);
}

#[test]
fn decoder_yields_consecutive_frames() {
    let mut stream = encode_packet(0x01, &[0x0a]);
    stream.extend(encode_packet(0x02, &[0x0b, 0x0c]));
    let mut rx = PktUARTRx::new();
    let frames = rx.push_bytes(&stream);
    assert_eq!(frames, vec![(0x01, vec![0x0a]), (0x02, vec![0x0b, 0x0c])]);
}

#[test]
fn decoder_feeds_byte_by_byte() {
    let mut rx = PktUARTRx::new();
    let pkt = encode_packet(0x21, &[0x33]);
    for (k, &b) in pkt.iter().enumerate() {
        let got = rx.push_byte(b);
        if k + 1 == pkt.len() {
            assert_eq!(got, Some((0x21, vec![0x33])));
        } else {
            assert_eq!(got, None);
        }
    }
}
