use sniffnet_agent::ipfix::template::write_template_set;

/// Reference bytes: field order, element numbers and length encoding.
const EXPECTED: &[u8] = &[
    // Set header: set_id=2, length=124
    0x00, 0x02, 0x00, 0x7c, // Template 256 header: template_id=256, field_count=14
    0x01, 0x00, 0x00, 0x0e, // Template 256 fields: (IE, length) pairs
    0x00, 0x08, 0x00, 0x04, // IE 8 (srcIPv4), 4B
    0x00, 0x0c, 0x00, 0x04, // IE 12 (dstIPv4), 4B
    0x00, 0x07, 0x00, 0x02, // IE 7 (srcPort), 2B
    0x00, 0x0b, 0x00, 0x02, // IE 11 (dstPort), 2B
    0x00, 0x04, 0x00, 0x01, // IE 4 (protocol), 1B
    0x00, 0x38, 0x00, 0x06, // IE 56 (srcMac), 6B
    0x00, 0x50, 0x00, 0x06, // IE 80 (dstMac), 6B
    0x00, 0xf3, 0x00, 0x02, // IE 243 (dot1qVlanId), 2B
    0x01, 0x00, 0x00, 0x02, // IE 256 (ethernetType), 2B
    0x00, 0x3d, 0x00, 0x01, // IE 61 (flowDirection), 1B
    0x01, 0x60, 0x00, 0x08, // IE 352 (layer2OctetDeltaCount), 8B
    0x00, 0x02, 0x00, 0x08, // IE 2 (packetDeltaCount), 8B
    0x00, 0x98, 0x00, 0x08, // IE 152 (flowStartMilliseconds), 8B
    0x00, 0x99, 0x00, 0x08, // IE 153 (flowEndMilliseconds), 8B
    // Template 257 header: template_id=257, field_count=14
    0x01, 0x01, 0x00, 0x0e, // Template 257 fields
    0x00, 0x1b, 0x00, 0x10, // IE 27 (srcIPv6), 16B
    0x00, 0x1c, 0x00, 0x10, // IE 28 (dstIPv6), 16B
    0x00, 0x07, 0x00, 0x02, // IE 7 (srcPort), 2B
    0x00, 0x0b, 0x00, 0x02, // IE 11 (dstPort), 2B
    0x00, 0x04, 0x00, 0x01, // IE 4 (protocol), 1B
    0x00, 0x38, 0x00, 0x06, // IE 56 (srcMac), 6B
    0x00, 0x50, 0x00, 0x06, // IE 80 (dstMac), 6B
    0x00, 0xf3, 0x00, 0x02, // IE 243 (dot1qVlanId), 2B
    0x01, 0x00, 0x00, 0x02, // IE 256 (ethernetType), 2B
    0x00, 0x3d, 0x00, 0x01, // IE 61 (flowDirection), 1B
    0x01, 0x60, 0x00, 0x08, // IE 352 (layer2OctetDeltaCount), 8B
    0x00, 0x02, 0x00, 0x08, // IE 2 (packetDeltaCount), 8B
    0x00, 0x98, 0x00, 0x08, // IE 152 (flowStartMilliseconds), 8B
    0x00, 0x99, 0x00, 0x08, // IE 153 (flowEndMilliseconds), 8B
];

#[test]
fn template_set_matches_spec_bytes() {
    let mut buf = Vec::new();
    write_template_set(&mut buf);
    assert_eq!(buf.len(), 124);
    assert_eq!(buf, EXPECTED);
}

#[test]
fn template_set_is_appended() {
    let mut buf = vec![1u8, 2, 3];
    write_template_set(&mut buf);
    assert_eq!(buf[..3], [1, 2, 3]);
    assert_eq!(buf[3..], EXPECTED[..]);
}
