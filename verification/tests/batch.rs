use ordinum::db::batch::{
    BatchInner, BatchRecordKind, BatchRuntimeState, DeferredOp, MAX_BATCH_SIZE,
};
use ordinum::db::batch_object::{
    BatchAllocation, BatchFactory, BatchObject, BatchPtr, BatchRef, OwnedBatchFactory,
    OwnedBatchPtr, UnCommitted,
};
use ordinum::db::DEFAULT_CF_ID;
use ordinum::key::MAX_USER_KEY_BYTES;
use ordinum::utils::var_int::VarInt;
use ordinum::wal::WalSyncResultState;
use ordinum::Error;

type Uncommitted = BatchObject<UnCommitted, OwnedBatchPtr>;

/// Reads the operations of an encoded batch: kind, column family, key, value.
fn decode(data: &[u8]) -> Vec<(u8, u64, Vec<u8>, Vec<u8>)> {
    let mut records = Vec::new();
    let mut at = 12;
    while at < data.len() {
        let kind = data[at];
        let mut cf = [0u8; 8];
        cf.copy_from_slice(&data[at + 1..at + 9]);
        at += 9;
        let (key_len, read) = VarInt::decode(&data[at..]);
        at += read;
        let key = data[at..at + key_len as usize].to_vec();
        at += key_len as usize;
        let (value_len, read) = VarInt::decode(&data[at..]);
        at += read;
        let value = data[at..at + value_len as usize].to_vec();
        at += value_len as usize;
        records.push((kind, u64::from_le_bytes(cf), key, value));
    }
    records
}

fn header_count(data: &[u8]) -> u32 {
    let mut count = [0u8; 4];
    count.copy_from_slice(&data[8..12]);
    u32::from_le_bytes(count)
}

#[test]
fn batch_ptr_drop() {
    let b = Uncommitted::new(BatchPtr(1));

    let b_ptr = b.as_non_null();
    let b_ptr2 = b.as_non_null();

    assert_eq!(b_ptr, b_ptr2);
}

#[test]
fn batch_new() {
    let batch = Uncommitted::new(BatchPtr(1));
    let b_ref = batch.as_inner();
    assert!(b_ref.count == 0);
}

#[test]
fn assign_seq_num() {
    let mut batch = Uncommitted::new_with_capacity(BatchPtr(1), 10);

    assert_eq!(batch.as_inner().seq_num(), 0);

    batch.inner.batch_mut().assign_seq_num_once(10);

    assert_eq!(batch.as_inner().seq_num(), 10);
}

#[test]
fn inner_put() {
    let mut inner = BatchInner::new_with_capacity(100);

    inner.put(DEFAULT_CF_ID, b"hello", b"world").unwrap();

    assert_eq!(inner.data.len(), 33);
}

#[test]
fn put_deferred_ok() {
    let mut inner = BatchInner::new_with_capacity(40);

    let key = b"Hello";
    let value = b"World";

    inner
        .put_with(0, key.len(), value.len(), BatchRecordKind::Put, |def| {
            {
                let (k, v) = def.key_value_mut();

                k.copy_from_slice(key);
                v.copy_from_slice(value);

                let result_k = String::from_utf8_lossy(k);
                let result_v = String::from_utf8_lossy(v);

                // Length checks
                assert_eq!(key.len(), k.len());
                assert_eq!(key.len(), v.len());

                // Bytes checks
                assert_eq!(result_k.as_bytes(), key);
                assert_eq!(result_v.as_bytes(), value);
            }

            // Write checks
            assert_eq!(key, def.key_mut());
            assert_eq!(value, def.value_mut());
        })
        .unwrap();

    assert_eq!(
        decode(&inner.data),
        vec![(1, 0, b"Hello".to_vec(), b"World".to_vec())]
    );
    assert_eq!(inner.count, 1);
    assert_eq!(header_count(&inner.data), 1);
}

#[should_panic]
#[test]
fn put_deferred_rollback() {
    let mut inner = BatchInner::new_with_capacity(40);

    let key = b"Hello";
    // Longer than the reserved space.
    let wrong_key = b"GoodAfternoon";
    let value = b"World";

    let _ = inner.put_with(0, key.len(), value.len(), BatchRecordKind::Put, |def| {
        let (k, v) = def.key_value_mut();

        k.copy_from_slice(wrong_key);
        v.copy_from_slice(value);
    });
}

#[test]
fn record_may_fill_batch_to_exact_limit() {
    let mut inner = BatchInner::new();
    let record_size = 1 + std::mem::size_of::<u64>() + 1 + 1 + 1 + 1;
    inner.max_batch_size = BatchInner::HEADER_SIZE + record_size;

    inner.put(DEFAULT_CF_ID, b"k", b"v").unwrap();

    assert_eq!(inner.data.len(), inner.max_batch_size);
    assert_eq!(inner.count, 1);
}

#[test]
fn oversized_record_is_rejected_without_initializing_batch() {
    let mut inner = BatchInner::new();
    inner.max_batch_size = BatchInner::HEADER_SIZE + 10;

    let error = inner.put(DEFAULT_CF_ID, b"k", b"v").unwrap_err();

    assert!(matches!(
        error,
        Error::RecordTooLarge {
            max_batch_size,
            ..
        } if max_batch_size == BatchInner::HEADER_SIZE + 10
    ));
    assert!(matches!(error, Error::RecordTooLarge { encoded_size: 25, .. }));
    assert_eq!(inner.data.len(), BatchInner::HEADER_SIZE);
    assert_eq!(inner.count, 0);
}

#[test]
fn full_batch_rejects_next_record_without_mutation() {
    let mut inner = BatchInner::new();
    inner.max_batch_size = 30;
    inner.put(DEFAULT_CF_ID, b"", b"").unwrap();

    let previous_data = inner.data.clone();
    let previous_count = inner.count;
    let error = inner.put(DEFAULT_CF_ID, b"", b"").unwrap_err();

    assert!(matches!(error, Error::BatchFull { .. }));
    assert!(matches!(
        error,
        Error::BatchFull { record_size: 11, current_size: 23, max_batch_size: 30 }
    ));
    assert_eq!(inner.data, previous_data);
    assert_eq!(inner.count, previous_count);
}

#[test]
fn oversized_user_key_is_rejected_before_reservation() {
    let mut inner = BatchInner::new();

    let error = inner
        .put_with(
            DEFAULT_CF_ID,
            MAX_USER_KEY_BYTES + 1,
            0,
            BatchRecordKind::Put,
            |_def| (),
        )
        .unwrap_err();

    assert!(matches!(
        error,
        Error::KeyTooLarge {
            size,
            max: MAX_USER_KEY_BYTES,
        } if size == MAX_USER_KEY_BYTES + 1
    ));
    assert_eq!(inner.data.len(), BatchInner::HEADER_SIZE);
}

#[test]
fn value_length_that_cannot_be_encoded_is_rejected() {
    let mut inner = BatchInner::new();
    let value_len = u32::MAX as usize + 1;

    let error = match inner.put_with(DEFAULT_CF_ID, 0, value_len, BatchRecordKind::Put, |_def| ()) {
        Ok(_) => panic!("unencodable value length unexpectedly reserved a record"),
        Err(error) => error,
    };

    assert!(matches!(
        error,
        Error::ValueTooLarge { size, max } if size == value_len && max == u32::MAX as usize
    ));
    assert_eq!(inner.data.len(), BatchInner::HEADER_SIZE);
}

#[test]
fn a_batch_is_its_header_and_its_operations() {
    let mut inner = BatchInner::new();
    inner.put(7, b"k1", b"v1").unwrap();
    inner.put(0x0102, &[9u8; 200], b"").unwrap();
    inner
        .put_with(3, 1, 0, BatchRecordKind::Delete, |def| def.key_mut()[0] = b'x')
        .unwrap();
    inner.assign_seq_num_once(0x1122_3344);

    assert_eq!(
        &inner.data[..26],
        &[
            0x44, 0x33, 0x22, 0x11, 0, 0, 0, 0, 3, 0, 0, 0, 1, 7, 0, 0, 0, 0, 0, 0, 0, 2, b'k',
            b'1', 2, b'v'
        ]
    );
    assert_eq!(
        decode(&inner.data),
        vec![
            (1, 7, b"k1".to_vec(), b"v1".to_vec()),
            (1, 0x0102, vec![9u8; 200], Vec::new()),
            (2, 3, b"x".to_vec(), Vec::new()),
        ]
    );
    assert_eq!(header_count(&inner.data), 3);
    assert_eq!(inner.get_batch_count(), 3);
    assert_eq!(inner.seq_num(), 0x1122_3344);
    assert_eq!(inner.get_batch_size(), inner.data.len());
}

#[test]
fn largest_key_is_taken() {
    let mut inner = BatchInner::new();
    let key = vec![1u8; MAX_USER_KEY_BYTES];
    inner.put(0, &key, b"").unwrap();
    assert_eq!(inner.data.len(), 12 + 9 + 3 + MAX_USER_KEY_BYTES + 1);
    assert!(matches!(
        inner.put(0, &vec![1u8; MAX_USER_KEY_BYTES + 1], b""),
        Err(Error::KeyTooLarge { size: 65537, max: 65536 })
    ));
}

#[test]
fn record_above_the_limit_of_every_batch() {
    let mut inner = BatchInner::new();
    let value = vec![0u8; MAX_BATCH_SIZE];
    let error = inner.put(0, b"", &value).unwrap_err();
    assert!(matches!(
        error,
        Error::RecordTooLarge { encoded_size, max_batch_size: MAX_BATCH_SIZE }
            if encoded_size == 12 + 9 + 1 + 3 + MAX_BATCH_SIZE
    ));
    assert!(matches!(
        inner.reserve_operation(usize::MAX),
        Err(Error::RecordTooLarge { encoded_size: usize::MAX, max_batch_size: MAX_BATCH_SIZE })
    ));
    assert_eq!(inner.data.len(), 12);
}

#[test]
fn a_full_batch_can_be_retried_after_a_reset() {
    let mut inner = BatchInner::new();
    inner.max_batch_size = 30;
    inner.put(0, b"", b"").unwrap();
    assert!(inner.put(0, b"a", b"").is_err());
    inner.clear();
    assert_eq!(inner.data.len(), 0);
    inner.put(0, b"a", b"").unwrap();
    assert_eq!(decode(&inner.data), vec![(1, 0, b"a".to_vec(), Vec::new())]);
    assert_eq!(header_count(&inner.data), 1);
}

#[test]
fn a_reservation_that_is_dropped_leaves_no_trace() {
    let mut inner = BatchInner::new();
    inner.put(0, b"kept", b"v").unwrap();
    let before = inner.data.clone();
    {
        let mut op: DeferredOp =
            inner.prepare_with_key_value_impl(5, 3, 4, BatchRecordKind::Merge).ok().unwrap();
        assert_eq!(op.reservation_start, before.len());
        assert_eq!(op.reservation_end, before.len() + 18);
        op.key_mut().copy_from_slice(b"abc");
    }
    assert_eq!(inner.data, before);
    assert_eq!(inner.count, 1);

    // One that is taken back and then finished adds nothing either.
    {
        let mut op: DeferredOp =
            inner.prepare_with_key_value_impl(5, 3, 4, BatchRecordKind::Merge).ok().unwrap();
        op.rollback();
        assert_eq!(op.reservation_end, before.len());
        op.finish();
    }
    assert_eq!(inner.data, before);

    {
        let mut op: DeferredOp =
            inner.prepare_with_key_value_impl(5, 3, 4, BatchRecordKind::Merge).ok().unwrap();
        op.finish();
        op.finish();
        assert!(!op.release());
    }
    assert_eq!(inner.data.len(), before.len() + 18);

    let op = inner.prepare_with_key_value_impl(5, 3, 4, BatchRecordKind::Merge).ok().unwrap();
    assert!(op.release());
    assert_eq!(inner.data.len(), before.len() + 18);

    // A batch without any bytes keeps the header that it was given.
    inner.clear();
    drop(inner.prepare_with_key_value_impl(5, 3, 4, BatchRecordKind::Merge).ok().unwrap());
    assert_eq!(inner.data, vec![0; 12]);
}

#[test]
fn a_closure_may_finish_its_operation() {
    let mut inner = BatchInner::new();
    inner
        .put_with(2, 1, 2, BatchRecordKind::Put, |def| {
            def.key_mut().copy_from_slice(b"k");
            def.value_mut().copy_from_slice(b"vw");
            def.finish();
        })
        .unwrap();
    assert_eq!(decode(&inner.data), vec![(1, 2, b"k".to_vec(), b"vw".to_vec())]);
    assert_eq!(inner.count, 1);
}

#[test]
fn header_count_is_replaced() {
    let mut inner = BatchInner::new();
    assert_eq!(inner.adjust_count_in_header(300), 0);
    assert_eq!(inner.adjust_count_in_header(1), 300);
}

#[test]
fn layout_of_a_record() {
    let inner = BatchInner::new();
    let (key, value, size) = inner.key_value_record_layout(5, 300).unwrap();
    assert_eq!(key.as_slice(), &[5]);
    assert_eq!(value.as_slice(), &[0xac, 0x02]);
    assert_eq!(size, 1 + 8 + 1 + 5 + 2 + 300);
    assert_eq!(inner.estimate_entry_size(5, 300), 0);
}

#[test]
fn shrinking_keeps_the_contents() {
    let mut inner = BatchInner::new_with_capacity(4000);
    inner.put(0, b"key", b"value").unwrap();
    let before = inner.data.clone();
    assert!(inner.data.capacity() >= 4012);
    inner.shrink_batch_to(100);
    assert_eq!(inner.data, before);
    assert!(inner.data.capacity() < 4012);
}

#[test]
fn states_by_number_and_name() {
    let names = ["Idle", "Acquired", "InQueue", "WaitingSync", "Applied"];
    for code in 0u8..5 {
        let state = BatchRuntimeState::from(code);
        assert_eq!(state.code(), code);
        assert_eq!(state.to_string(), names[code as usize]);
        assert_eq!(state.is_reset_safe(), code == 1 || code == 4);
    }
}

#[test]
fn applied_batches() {
    let mut inner = BatchInner::new();
    assert!(!inner.is_applied());
    inner.set_runtime_state(BatchRuntimeState::InQueue);
    assert!(!inner.is_applied());
    inner.mark_applied();
    assert!(inner.is_applied());
    assert!(BatchRef::from_batch(&inner).batch.is_applied());
}

#[test]
fn waiting_for_the_log() {
    let mut batch = Uncommitted::new(BatchPtr(1));
    let failed = Err(WalSyncResultState::IoError);
    assert!(batch.wait_until_reusable(failed).is_ok());
    assert_eq!(batch.as_inner().sync_waiter_state(), WalSyncResultState::Init);

    // What the wait came to is what the waiter says from then on.
    for (waited, state) in [
        (Ok(()), WalSyncResultState::SyncDone),
        (failed, WalSyncResultState::IoError),
        (Err(WalSyncResultState::WalError), WalSyncResultState::WalError),
    ] {
        batch.inner.batch_mut().prime_sync_waiter();
        assert_eq!(batch.as_inner().sync_waiter_state(), WalSyncResultState::Primed);
        assert_eq!(batch.wait_until_reusable(waited).is_ok(), waited.is_ok());
        assert_eq!(batch.as_inner().sync_waiter_state(), state);
        assert_eq!(batch.wait_until_reusable(failed).is_ok(), waited.is_ok());
        assert_eq!(batch.wait_until_reusable(Ok(())).is_ok(), waited.is_ok());
    }
    assert!(matches!(batch.wait_until_reusable(Ok(())), Err(Error::WalError)));
}

#[test]
fn a_reset_batch_is_empty() {
    let mut batch = Uncommitted::new(BatchPtr(3));
    batch.put(b"k", b"v");
    batch.put_cf(9, b"k", b"v");
    assert_eq!(batch.as_inner().count, 2);
    assert_eq!(decode(&batch.as_inner().data)[1].1, 9);
    batch.set_runtime_state(BatchRuntimeState::InQueue);
    assert!(!batch.can_reset());
    assert!(batch.is_state(BatchRuntimeState::InQueue));
    batch.set_runtime_state(BatchRuntimeState::Applied);
    assert!(batch.can_reset());
    let mut batch = batch.seal().reset_batch();
    assert_eq!(batch.state(), BatchRuntimeState::Acquired);
    assert_eq!(batch.as_inner().data.len(), 0);
    assert_eq!(batch.as_inner().count, 0);
    assert_eq!(batch.as_non_null(), BatchPtr(3));
    batch.resize_to(5000);
    assert!(batch.as_inner().data.capacity() >= 5000);
    batch.shrink_to(10);
    assert_eq!(batch.as_inner().data.len(), 0);
}

#[test]
fn a_factory_numbers_its_batches() {
    let mut factory = OwnedBatchFactory::default();
    let (size, first) = factory.allocate();
    let (_, second) = factory.allocate_with_capacity(100);
    assert_eq!(size, 12);
    assert_eq!(first.batch_ptr(), BatchPtr(0));
    assert_eq!(second.as_non_null(), BatchPtr(1));
    assert_eq!(second.batch().data, vec![0u8; 12]);
}
