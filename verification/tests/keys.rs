use ordinum::db::record::BatchRecordKind;
use ordinum::key::internal_key::{
    describe_key, encode_trailer, extract_op, extract_op_raw, extract_seq_no, pack_trailer,
    unpack_trailer, unpack_trailer_raw, InternalKeyKind, InternalKeyRef,
};

#[test]
fn encode_trailer_works() {
    let trailer_1 = encode_trailer(12345 as u64, InternalKeyKind::Put);
    let trailer_2 = encode_trailer(12346 as u64, InternalKeyKind::Put);

    assert!(
        trailer_2 > trailer_1,
        "trailer_2 should be greater than trailer_1"
    );
}

#[test]
fn point_batch_record_kinds_map_to_internal_key_kinds() {
    assert_eq!(
        InternalKeyKind::try_from(BatchRecordKind::Put),
        Ok(InternalKeyKind::Put)
    );
    assert_eq!(
        InternalKeyKind::try_from(BatchRecordKind::Delete),
        Ok(InternalKeyKind::Delete)
    );
    assert_eq!(
        InternalKeyKind::try_from(BatchRecordKind::Merge),
        Ok(InternalKeyKind::Merge)
    );
}

#[test]
fn range_delete_does_not_map_to_point_internal_key_kind() {
    assert_eq!(
        InternalKeyKind::try_from(BatchRecordKind::RangeDel),
        Err(BatchRecordKind::RangeDel)
    );
}

#[test]
fn invalid_internal_key_kind_preserves_raw_byte() {
    let error = InternalKeyKind::try_from(42u8).unwrap_err();

    assert_eq!(error.raw(), 42);
    assert_eq!(error.to_string(), "invalid internal-key kind: 42");
}

#[test]
fn internal_key_display_reports_invalid_kind() {
    let key = InternalKeyRef {
        user_key: b"key",
        seq_no: 7,
        op: 42,
    };

    assert_eq!(key.to_string(), "key-7-Invalid(42)");
}

#[test]
fn keys_in_words() {
    let key = InternalKeyRef { user_key: b"a", seq_no: u64::MAX, op: 255 };
    assert_eq!(key.to_string(), "a-18446744073709551615-Max");
    let key = InternalKeyRef { user_key: b"", seq_no: 0, op: 0 };
    assert_eq!(key.to_string(), "-0-Invalid(0)");
    let key = InternalKeyRef { user_key: &[0xff, b'x'], seq_no: 10, op: 2 };
    assert_eq!(key.to_string(), "\u{fffd}x-10-Delete");
    assert_eq!(describe_key("k".to_string(), 30, 3), "k-30-Merge");
    assert_eq!(InternalKeyKind::Put.to_string(), "Put");
}

#[test]
fn trailers_hold_number_and_kind() {
    let packed = pack_trailer(12345, InternalKeyKind::Merge);
    assert_eq!(packed, 12345 << 8 | 3);
    assert_eq!(unpack_trailer_raw(packed), (12345, 3));
    assert_eq!(unpack_trailer(packed), Ok((12345, InternalKeyKind::Merge)));
    assert_eq!(unpack_trailer(9).unwrap_err().raw(), 9);
    assert_eq!(extract_seq_no(packed), 12345);
    assert_eq!(extract_op(packed), Ok(InternalKeyKind::Merge));
    assert_eq!(extract_op(packed + 1).unwrap_err().raw(), 4);
    assert_eq!(extract_op_raw(packed), 3);
    assert_eq!(
        encode_trailer((1 << 56) - 1, InternalKeyKind::Max),
        [0xff; 8]
    );
    assert_eq!(u64::from(InternalKeyKind::Max), 255);
}

#[test]
fn trailers_compare_as_their_numbers() {
    let kinds = [
        InternalKeyKind::Put,
        InternalKeyKind::Delete,
        InternalKeyKind::Merge,
        InternalKeyKind::Max,
    ];
    let numbers = [0u64, 1, 255, 256, 65535, 65536, (1 << 56) - 1];
    for a in numbers {
        for b in numbers {
            for k in kinds {
                for l in kinds {
                    let less = encode_trailer(a, k) < encode_trailer(b, l);
                    assert_eq!(less, (a, k) < (b, l));
                }
            }
        }
    }
}

#[test]
fn keys_come_apart() {
    let mut key = b"user".to_vec();
    key.extend_from_slice(&encode_trailer(99, InternalKeyKind::Delete));
    let decoded = InternalKeyRef::from(&key);
    assert_eq!(decoded, InternalKeyRef { user_key: b"user", seq_no: 99, op: 2 });
    let trailer = encode_trailer(7, InternalKeyKind::Put);
    let decoded = InternalKeyRef::from(&trailer);
    assert_eq!(decoded.user_key.len(), 0);
    assert_eq!(decoded.seq_no, 7);
}
