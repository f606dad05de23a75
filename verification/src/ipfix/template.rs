//! The two templates that describe the data records (RFC 7011, section 3.4.1):
//! template 256 for IPv4 flows, template 257 for IPv6 flows. Each names fourteen
//! information elements: addresses, ports, protocol, MACs, VLAN, `EtherType`,
//! direction, the delta counters and the two times. Both go out together in one
//! template set.
//!
//! The templates are wider than the data records by the two elements
//! `dot1qVlanId` and `ethernetType`, 2 bytes each: `encode` writes no bytes for
//! them. See `law_announced_sizes`.

use vstd::prelude::*;

use crate::bytes::{be_bytes, lemma_be_bytes_len, put_u16};
use crate::ipfix::{RECORD_SIZE_V4, RECORD_SIZE_V6, TEMPLATE_ID_V4, TEMPLATE_ID_V6, TEMPLATE_SET_ID};

verus! {

// IANA information element numbers.
pub const IE_PACKET_DELTA_COUNT: u16 = 2;

pub const IE_PROTOCOL_IDENTIFIER: u16 = 4;

pub const IE_SOURCE_TRANSPORT_PORT: u16 = 7;

pub const IE_SOURCE_IPV4_ADDRESS: u16 = 8;

pub const IE_DESTINATION_TRANSPORT_PORT: u16 = 11;

pub const IE_DESTINATION_IPV4_ADDRESS: u16 = 12;

pub const IE_SOURCE_IPV6_ADDRESS: u16 = 27;

pub const IE_DESTINATION_IPV6_ADDRESS: u16 = 28;

pub const IE_SOURCE_MAC_ADDRESS: u16 = 56;

pub const IE_FLOW_DIRECTION: u16 = 61;

pub const IE_DESTINATION_MAC_ADDRESS: u16 = 80;

pub const IE_FLOW_START_MILLISECONDS: u16 = 152;

pub const IE_FLOW_END_MILLISECONDS: u16 = 153;

pub const IE_DOT1Q_VLAN_ID: u16 = 243;

pub const IE_ETHERNET_TYPE: u16 = 256;

pub const IE_LAYER2_OCTET_DELTA_COUNT: u16 = 352;

pub const FIELD_COUNT: u16 = 14;

/// Template header(4) + one field specifier(4) for each field.
pub const TEMPLATE_RECORD_LEN: u16 = 60;

/// Set header(4) + two template records.
pub const TEMPLATE_SET_LEN: u16 = 124;

/// The field specifiers of the IPv4 template: element and length. A record
/// carries the elements in this order, but for `dot1qVlanId` and
/// `ethernetType`, which it does not carry.
pub const V4_FIELDS: [(u16, u16); 14] = [
    (IE_SOURCE_IPV4_ADDRESS, 4),
    (IE_DESTINATION_IPV4_ADDRESS, 4),
    (IE_SOURCE_TRANSPORT_PORT, 2),
    (IE_DESTINATION_TRANSPORT_PORT, 2),
    (IE_PROTOCOL_IDENTIFIER, 1),
    (IE_SOURCE_MAC_ADDRESS, 6),
    (IE_DESTINATION_MAC_ADDRESS, 6),
    (IE_DOT1Q_VLAN_ID, 2),
    (IE_ETHERNET_TYPE, 2),
    (IE_FLOW_DIRECTION, 1),
    (IE_LAYER2_OCTET_DELTA_COUNT, 8),
    (IE_PACKET_DELTA_COUNT, 8),
    (IE_FLOW_START_MILLISECONDS, 8),
    (IE_FLOW_END_MILLISECONDS, 8),
];

/// The field specifiers of the IPv6 template, to be read like `V4_FIELDS`.
pub const V6_FIELDS: [(u16, u16); 14] = [
    (IE_SOURCE_IPV6_ADDRESS, 16),
    (IE_DESTINATION_IPV6_ADDRESS, 16),
    (IE_SOURCE_TRANSPORT_PORT, 2),
    (IE_DESTINATION_TRANSPORT_PORT, 2),
    (IE_PROTOCOL_IDENTIFIER, 1),
    (IE_SOURCE_MAC_ADDRESS, 6),
    (IE_DESTINATION_MAC_ADDRESS, 6),
    (IE_DOT1Q_VLAN_ID, 2),
    (IE_ETHERNET_TYPE, 2),
    (IE_FLOW_DIRECTION, 1),
    (IE_LAYER2_OCTET_DELTA_COUNT, 8),
    (IE_PACKET_DELTA_COUNT, 8),
    (IE_FLOW_START_MILLISECONDS, 8),
    (IE_FLOW_END_MILLISECONDS, 8),
];

/// The field specifiers one after the other: element number, then length.
pub open spec fn specifiers(fields: Seq<(u16, u16)>) -> Seq<u8>
    decreases fields.len(),
{
    if fields.len() == 0 {
        Seq::empty()
    } else {
        specifiers(fields.drop_last()) + be_bytes(fields.last().0 as nat, 2)
            + be_bytes(fields.last().1 as nat, 2)
    }
}

/// A template record: its id, the number of its fields, the fields.
pub open spec fn template_record(template_id: u16, fields: Seq<(u16, u16)>) -> Seq<u8> {
    be_bytes(template_id as nat, 2) + be_bytes(fields.len(), 2)
        + specifiers(fields)
}

/// The template set: set header, IPv4 template, IPv6 template.
pub open spec fn template_set() -> Seq<u8> {
    be_bytes(TEMPLATE_SET_ID as nat, 2) + be_bytes(
        TEMPLATE_SET_LEN as nat,
        2,
    ) + template_record(TEMPLATE_ID_V4, V4_FIELDS@) + template_record(TEMPLATE_ID_V6, V6_FIELDS@)
}

proof fn lemma_specifiers_len(fields: Seq<(u16, u16)>)
    ensures
        specifiers(fields).len() == 4 * fields.len(),
    decreases fields.len(),
{
    broadcast use lemma_be_bytes_len;

    if fields.len() > 0 {
        lemma_specifiers_len(fields.drop_last());
    }
}

/// The length field of the template set tells its length.
pub proof fn law_template_set_len()
    ensures
        template_set().len() == TEMPLATE_SET_LEN,
        template_record(TEMPLATE_ID_V4, V4_FIELDS@).len() == TEMPLATE_RECORD_LEN,
        template_record(TEMPLATE_ID_V6, V6_FIELDS@).len() == TEMPLATE_RECORD_LEN,
{
    broadcast use lemma_be_bytes_len;

    lemma_specifiers_len(V4_FIELDS@);
    lemma_specifiers_len(V6_FIELDS@);
}

/// The sum of the announced lengths of the fields.
pub open spec fn announced_len(fields: Seq<(u16, u16)>) -> nat
    decreases fields.len(),
{
    if fields.len() == 0 {
        0
    } else {
        announced_len(fields.drop_last()) + fields.last().1 as nat
    }
}

/// The templates announce records of 62 and of 86 bytes: what the encoder
/// writes, and the four bytes of `dot1qVlanId` and `ethernetType`.
pub proof fn law_announced_sizes()
    ensures
        announced_len(V4_FIELDS@) == 62,
        announced_len(V6_FIELDS@) == 86,
        announced_len(V4_FIELDS@) == RECORD_SIZE_V4 + 4,
        announced_len(V6_FIELDS@) == RECORD_SIZE_V6 + 4,
{
    reveal_with_fuel(announced_len, 15);
}

/// Every element is a standard one: the enterprise bit is clear.
pub proof fn law_standard_elements(i: int)
    requires
        0 <= i < FIELD_COUNT,
    ensures
        V4_FIELDS@[i].0 < 0x8000,
        V6_FIELDS@[i].0 < 0x8000,
{
}

/// The two templates differ in the addresses only.
pub proof fn law_templates_share_tail(i: int)
    requires
        2 <= i < FIELD_COUNT,
    ensures
        V4_FIELDS@[i] == V6_FIELDS@[i],
{
}

/// Append the template set to `out`.
pub fn write_template_set(out: &mut Vec<u8>)
    ensures
        final(out)@ == old(out)@ + template_set(),
{
    put_u16(out, TEMPLATE_SET_ID);
    put_u16(out, TEMPLATE_SET_LEN);
    write_template_record(out, TEMPLATE_ID_V4, &V4_FIELDS);
    write_template_record(out, TEMPLATE_ID_V6, &V6_FIELDS);
    assert(out@ =~= old(out)@ + template_set());
}

/// Append one template record to `out`.
pub fn write_template_record(out: &mut Vec<u8>, template_id: u16, fields: &[(u16, u16); 14])
    ensures
        final(out)@ == old(out)@ + template_record(template_id, fields@),
{
    let ghost before = out@;
    put_u16(out, template_id);
    put_u16(out, FIELD_COUNT);
    let ghost header = be_bytes(template_id as nat, 2) + be_bytes(
        fields@.len(),
        2,
    );
    assert(fields@.take(0) =~= Seq::<(u16, u16)>::empty());
    assert(out@ =~= before + header + specifiers(fields@.take(0)));
    let mut i: usize = 0;
    while i < 14
        invariant
            i <= 14,
            fields@.len() == 14,
            out@ == before + header + specifiers(fields@.take(i as int)),
        decreases 14 - i,
    {
        put_u16(out, fields[i].0);
        put_u16(out, fields[i].1);
        assert(fields@.take(i + 1).drop_last() =~= fields@.take(i as int));
        assert(out@ =~= before + header + specifiers(fields@.take(i + 1)));
        i = i + 1;
    }
    assert(fields@.take(14) =~= fields@);
    assert(out@ =~= before + template_record(template_id, fields@));
}

/// A template record can be read: its id, the number of its fields, and for
/// each field, four bytes apart, the element and the length.
pub proof fn law_template_layout(template_id: u16, fields: Seq<(u16, u16)>, i: int)
    requires
        0 <= i < fields.len(),
    ensures
        ({
            let r = template_record(template_id, fields);
            &&& r.len() == 4 + 4 * fields.len()
            &&& r.subrange(0, 2) == be_bytes(template_id as nat, 2)
            &&& r.subrange(2, 4) == be_bytes(fields.len(), 2)
            &&& r.subrange(4 + 4 * i, 6 + 4 * i) == be_bytes(fields[i].0 as nat, 2)
            &&& r.subrange(6 + 4 * i, 8 + 4 * i) == be_bytes(fields[i].1 as nat, 2)
        }),
{
    broadcast use lemma_be_bytes_len;

    let r = template_record(template_id, fields);
    let t = specifiers(fields);
    lemma_specifiers_len(fields);
    lemma_specifier_at(fields, i);
    assert(r.subrange(0, 2) =~= be_bytes(template_id as nat, 2));
    assert(r.subrange(2, 4) =~= be_bytes(fields.len(), 2));
    assert(r.subrange(4 + 4 * i, 6 + 4 * i) =~= t.subrange(4 * i, 4 * i + 2));
    assert(r.subrange(6 + 4 * i, 8 + 4 * i) =~= t.subrange(4 * i + 2, 4 * i + 4));
}

proof fn lemma_specifier_at(fields: Seq<(u16, u16)>, i: int)
    requires
        0 <= i < fields.len(),
    ensures
        specifiers(fields).subrange(4 * i, 4 * i + 2) == be_bytes(fields[i].0 as nat, 2),
        specifiers(fields).subrange(4 * i + 2, 4 * i + 4) == be_bytes(fields[i].1 as nat, 2),
    decreases fields.len(),
{
    broadcast use lemma_be_bytes_len;

    let init = fields.drop_last();
    let s = specifiers(fields);
    lemma_specifiers_len(fields);
    lemma_specifiers_len(init);
    if i < init.len() {
        lemma_specifier_at(init, i);
        assert(s.subrange(4 * i, 4 * i + 2) =~= specifiers(init).subrange(4 * i, 4 * i + 2));
        assert(s.subrange(4 * i + 2, 4 * i + 4) =~= specifiers(init).subrange(
            4 * i + 2,
            4 * i + 4,
        ));
    } else {
        assert(s.subrange(4 * i, 4 * i + 2) =~= be_bytes(fields[i].0 as nat, 2));
        assert(s.subrange(4 * i + 2, 4 * i + 4) =~= be_bytes(fields[i].1 as nat, 2));
    }
}

} // verus!
