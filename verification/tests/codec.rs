use moq_core::object::{DecodeError, EncodeError, ObjectHeader, ObjectStatus};
use moq_core::varint::{decode_varint, encode_varint};

fn header(status: ObjectStatus) -> ObjectHeader {
    ObjectHeader {
        subscribe_id: 5,
        track_alias: 300,
        group_id: 1_000_000,
        object_id: 4_611_686_018_427_387_903,
        publisher_priority: 7,
        object_status: status,
    }
}

#[test]
fn round_trip_all_statuses() {
    let statuses = vec![
        ObjectStatus::Object,
        ObjectStatus::ObjectDoesNotExist,
        ObjectStatus::EndOfGroup,
        ObjectStatus::EndOfTrack,
        ObjectStatus::EndOfSubgroup,
    ];
    for status in statuses {
        let h = header(status);
        let mut w: Vec<u8> = Vec::new();
        h.encode(&mut w).expect("encodable header");
        let (back, used) = ObjectHeader::decode(&w, 0).expect("decodes");
        assert_eq!(back, h);
        assert_eq!(used, w.len());
    }
}

#[test]
fn round_trip_boundary_values() {
    let values = vec![
        0u64,
        0x3F,
        0x40,
        0x3FFF,
        0x4000,
        0x3FFF_FFFF,
        0x4000_0000,
        0x3FFF_FFFF_FFFF_FFFF,
    ];
    for v in values {
        let h = ObjectHeader {
            subscribe_id: v,
            track_alias: v,
            group_id: v,
            object_id: v,
            publisher_priority: 255,
            object_status: ObjectStatus::Object,
        };
        let mut w: Vec<u8> = Vec::new();
        h.encode(&mut w).expect("encodable header");
        let (back, used) = ObjectHeader::decode(&w, 0).expect("decodes");
        assert_eq!(back, h);
        assert_eq!(used, w.len());
    }
}

#[test]
fn varint_exact_wire_bytes() {
    let mut w: Vec<u8> = Vec::new();
    encode_varint(37, &mut w).unwrap();
    assert_eq!(w, vec![0x25]);

    let mut w: Vec<u8> = Vec::new();
    encode_varint(15_293, &mut w).unwrap();
    assert_eq!(w, vec![0x7B, 0xBD]);

    let mut w: Vec<u8> = Vec::new();
    encode_varint(494_878_333, &mut w).unwrap();
    assert_eq!(w, vec![0x9D, 0x7F, 0x3E, 0x7D]);

    let mut w: Vec<u8> = Vec::new();
    encode_varint(151_288_809_941_952_652, &mut w).unwrap();
    assert_eq!(w, vec![0xC2, 0x19, 0x7C, 0x5E, 0xFF, 0x14, 0xE8, 0x8C]);
}

#[test]
fn varint_decodes_non_canonical_form() {
    // 37 in the two-byte form still decodes to 37.
    let buf = vec![0x40u8, 0x25];
    assert_eq!(decode_varint(&buf, 0).unwrap(), (37, 2));
}

#[test]
fn varint_rejects_oversized_value() {
    let mut w: Vec<u8> = Vec::new();
    assert_eq!(
        encode_varint(0x4000_0000_0000_0000, &mut w),
        Err(EncodeError::BoundsExceeded)
    );
    assert!(w.is_empty());
}

#[test]
fn encode_rejects_oversized_field() {
    let mut h = header(ObjectStatus::Object);
    h.group_id = u64::MAX;
    let mut w: Vec<u8> = Vec::new();
    assert_eq!(h.encode(&mut w), Err(EncodeError::BoundsExceeded));
    assert!(w.is_empty());
}

#[test]
fn invalid_status_code_rejected() {
    let h = header(ObjectStatus::Object);
    let mut w: Vec<u8> = Vec::new();
    h.encode(&mut w).unwrap();
    // The status field is the final byte (code 0); patch in the reserved
    // code 2 and the header must be rejected.
    let last = w.len() - 1;
    w[last] = 2;
    assert_eq!(
        ObjectHeader::decode(&w, 0),
        Err(DecodeError::InvalidObjectStatus)
    );
    // Any other out-of-set code fails the same way.
    w[last] = 6;
    assert_eq!(
        ObjectHeader::decode(&w, 0),
        Err(DecodeError::InvalidObjectStatus)
    );
}

#[test]
fn status_round_trip_and_rejection() {
    let mut w: Vec<u8> = Vec::new();
    ObjectStatus::EndOfTrack.encode(&mut w).unwrap();
    assert_eq!(w, vec![4]);
    assert_eq!(
        ObjectStatus::decode(&w, 0).unwrap(),
        (ObjectStatus::EndOfTrack, 1)
    );
    let bad = vec![2u8];
    assert_eq!(
        ObjectStatus::decode(&bad, 0),
        Err(DecodeError::InvalidObjectStatus)
    );
}

#[test]
fn truncated_header_rejected() {
    let h = header(ObjectStatus::EndOfGroup);
    let mut w: Vec<u8> = Vec::new();
    h.encode(&mut w).unwrap();
    for cut in 0..w.len() {
        assert_eq!(
            ObjectHeader::decode(&w[..cut], 0),
            Err(DecodeError::UnexpectedEnd),
            "prefix of {cut} bytes must be rejected"
        );
    }
}
