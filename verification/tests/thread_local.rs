use ordinum::thread_local_storage::registry::{DBInstanceCtx, Entry, ThreadRegistry};
use ordinum::thread_local_storage::thread_local::{
    Reclaim, ThreadData, ThreadMetaGlobal, UnrefHandler,
};
use ordinum::thread_local_storage::thread_local_ptr::{ThreadLocalObject, ThreadLocalPtr};

struct Thing;

impl ThreadLocalObject for Thing {
    fn handler() -> Option<UnrefHandler> {
        Some(UnrefHandler(5))
    }
}

fn reclaim(object: usize) -> Reclaim {
    Reclaim { handler: UnrefHandler(5), object }
}

/// The linked threads, from the one that came last.
fn linked(meta: &ThreadMetaGlobal) -> Vec<usize> {
    let mut threads = Vec::new();
    let mut next = meta.rows[0].next.unwrap();
    let mut prev = 0;
    while next != 0 {
        assert_eq!(meta.rows[next].prev, Some(prev));
        threads.push(next);
        prev = next;
        next = meta.rows[next].next.unwrap();
    }
    assert_eq!(meta.rows[0].prev, Some(prev));
    threads
}

#[test]
fn link_access() {
    let mut td = ThreadData::new();
    assert!(td.next.is_none());
    td.next = Some(2);
    assert_eq!(td.next, Some(2));
}

#[test]
fn drop_row() {
    let mut meta = ThreadMetaGlobal::new();
    let tlp = ThreadLocalPtr::<Thing>::new(&mut meta);
    let thread = meta.add_thread();
    meta.ensure_registered(thread);
    assert!(meta.rows[thread].next.is_some());
    tlp.init(&mut meta, thread, 77);

    let reclaims = meta.drop_row(thread);

    assert!(meta.rows[thread].entries[0].is_none());
    assert!(meta.rows[thread].next.is_none());
    assert!(meta.rows[thread].prev.is_none());
    assert_eq!(reclaims, vec![reclaim(77)]);
    assert_eq!(linked(&meta), Vec::<usize>::new());
}

#[test]
fn thread_local_cell_method() {
    let mut meta = ThreadMetaGlobal::default();
    let thread = meta.add_thread();
    assert_eq!(meta.with_tlp_ptr(thread, 3), None);
    assert_eq!(meta.rows[thread].entries, vec![None; 4]);
    assert!(meta.rows[thread].registered);
    assert_eq!(meta.with_tlp_ptr(thread, 1), None);
    assert_eq!(meta.rows[thread].entries.len(), 4);
}

#[test]
fn simple_entry() {
    let mut meta = ThreadMetaGlobal::new();
    let tlp = ThreadLocalPtr::<Thing>::new(&mut meta);
    assert_eq!(meta.unref_handler_map.get(&tlp.tls_id), Some(&UnrefHandler(5)));
}

#[test]
fn simple_get_on_tlp() {
    let mut meta = ThreadMetaGlobal::new();
    let thread = meta.add_thread();
    let tlp = ThreadLocalPtr::<Thing>::new(&mut meta);

    let entry = tlp.get(&mut meta, thread);
    assert!(entry.is_none());
}

#[test]
fn get_and_init_tlp() {
    let mut meta = ThreadMetaGlobal::new();
    let thread = meta.add_thread();
    let tlp = ThreadLocalPtr::<Thing>::new(&mut meta);

    if tlp.get(&mut meta, thread).is_none() {
        tlp.init(&mut meta, thread, 10);
    }

    let object = tlp.get(&mut meta, thread);

    assert!(object.is_some());
    assert_eq!(object.unwrap(), 10);
}

#[test]
fn two_entries_vec_len() {
    let mut meta = ThreadMetaGlobal::new();
    let thread = meta.add_thread();
    let tlp = ThreadLocalPtr::<Thing>::new(&mut meta);
    tlp.init(&mut meta, thread, 10);
    let tlp_2 = ThreadLocalPtr::<Thing>::new(&mut meta);
    tlp_2.init(&mut meta, thread, 20);
    assert_eq!(meta.rows[thread].entries.len(), 2);
}

#[test]
fn two_threads_entry_reuse() {
    let mut meta = ThreadMetaGlobal::new();
    let main = meta.add_thread();
    let base_tlp = ThreadLocalPtr::<Thing>::new(&mut meta);
    base_tlp.init(&mut meta, main, 5);
    base_tlp.remove_column(&mut meta);

    let other = meta.add_thread();
    let tlp = ThreadLocalPtr::<Thing>::new(&mut meta);
    tlp.init(&mut meta, other, 10);
    let tlp_2 = ThreadLocalPtr::<Thing>::new(&mut meta);
    tlp_2.init(&mut meta, other, 20);
    assert_eq!(meta.rows[other].entries.len(), 2);

    // Both columns are given back.
    tlp_2.remove_column(&mut meta);
    tlp.remove_column(&mut meta);
    meta.drop_row(other);
    assert_eq!(meta.tls_id_free_list.len(), 2);
}

#[test]
fn concurrent_get_or_init_same_thread_row_is_stable() {
    let mut meta = ThreadMetaGlobal::new();
    let thread = meta.add_thread();
    let tlp = ThreadLocalPtr::<Thing>::new(&mut meta);
    assert_eq!(tlp.get_or_init(&mut meta, thread, || 1), 1);
    assert_eq!(tlp.get_or_init(&mut meta, thread, || 2), 1);
    assert_eq!(tlp.get(&mut meta, thread), Some(1));
    assert_eq!(tlp.get_or_init_mut(&mut meta, thread, || 3, |object| object * 100), 100);
    assert_eq!(meta.rows[thread].entries.len(), 1);
}

#[test]
fn concurrent_threads_isolate_per_thread_entries() {
    let mut meta = ThreadMetaGlobal::new();
    let first = meta.add_thread();
    let second = meta.add_thread();
    let tlp = ThreadLocalPtr::<Thing>::new(&mut meta);
    tlp.init(&mut meta, first, 1);
    tlp.init(&mut meta, second, 2);
    assert_eq!(tlp.get(&mut meta, first), Some(1));
    assert_eq!(tlp.get(&mut meta, second), Some(2));
    assert_eq!(linked(&meta), vec![second, first]);
}

#[test]
fn concurrent_registration_and_slot_growth_preserves_indices() {
    let mut meta = ThreadMetaGlobal::new();
    let threads: Vec<usize> = (0..3).map(|_| meta.add_thread()).collect();
    let columns: Vec<ThreadLocalPtr<Thing>> =
        (0..4).map(|_| ThreadLocalPtr::new(&mut meta)).collect();
    for (c, column) in columns.iter().enumerate() {
        for &thread in &threads {
            column.init(&mut meta, thread, 10 * c + thread);
        }
    }
    for (c, column) in columns.iter().enumerate() {
        for &thread in &threads {
            assert_eq!(column.get(&mut meta, thread), Some(10 * c + thread));
        }
    }
    assert_eq!(linked(&meta), vec![3, 2, 1]);
}

#[test]
fn concurrent_drop_requires_quiesced_access() {
    let mut meta = ThreadMetaGlobal::new();
    let first = meta.add_thread();
    let idle = meta.add_thread();
    let second = meta.add_thread();
    let tlp = ThreadLocalPtr::<Thing>::new(&mut meta);
    tlp.init(&mut meta, first, 1);
    tlp.init(&mut meta, second, 2);
    meta.ensure_registered(idle);
    assert_eq!(tlp.remove_column(&mut meta), vec![reclaim(2), reclaim(1)]);
    assert_eq!(meta.tls_id_free_list, vec![tlp.tls_id]);
}

#[test]
fn concurrent_drop_and_access_is_not_permitted() {
    // A column that was given back belongs to nobody until it is handed out
    // again.
    let mut meta = ThreadMetaGlobal::new();
    let tlp = ThreadLocalPtr::<Thing>::new(&mut meta);
    tlp.remove_column(&mut meta);
    assert!(meta.tls_id_free_list.contains(&tlp.tls_id));
    assert!(!meta.unref_handler_map.contains_key(&tlp.tls_id));
}

#[test]
fn concurrent_reuse_of_freed_tls_id_clears_stale_state() {
    let mut meta = ThreadMetaGlobal::new();
    let first = meta.add_thread();
    let tlp = ThreadLocalPtr::<Thing>::new(&mut meta);
    tlp.init(&mut meta, first, 9);
    tlp.remove_column(&mut meta);

    let second = meta.add_thread();
    let next = ThreadLocalPtr::<usize>::new_with_handler(&mut meta, None);
    assert_eq!(next.tls_id, tlp.tls_id);
    assert!(!meta.unref_handler_map.contains_key(&next.tls_id));
    assert_eq!(next.get(&mut meta, first), None);
    assert_eq!(next.get(&mut meta, second), None);
    next.init(&mut meta, second, 3);
    // Without a handler there is nothing to be done.
    assert_eq!(next.remove_column(&mut meta), Vec::new());
}

#[test]
fn rows_of_ended_threads_are_used_again() {
    let mut meta = ThreadMetaGlobal::new();
    let tlp = ThreadLocalPtr::<Thing>::new(&mut meta);
    let threads: Vec<usize> = (0..3).map(|_| meta.add_thread()).collect();
    for &thread in &threads {
        tlp.init(&mut meta, thread, thread);
    }
    assert_eq!(meta.drop_row(threads[2]), vec![reclaim(threads[2])]);
    assert_eq!(meta.drop_row(threads[1]), vec![reclaim(threads[1])]);

    let again = meta.add_thread();
    assert_eq!(again, threads[1]);
    assert_eq!(tlp.get(&mut meta, again), None);
    assert_eq!(linked(&meta), vec![again, threads[0]]);
    assert_eq!(meta.add_thread(), threads[2]);
    assert_eq!(meta.add_thread(), 4);
    assert_eq!(meta.rows.len(), 5);
}

#[test]
fn concurrent_handler_invocation_reclaims_each_entry_once() {
    let mut meta = ThreadMetaGlobal::new();
    let threads: Vec<usize> = (0..4).map(|_| meta.add_thread()).collect();
    let tlp = ThreadLocalPtr::<Thing>::new(&mut meta);
    for &thread in &threads {
        tlp.init(&mut meta, thread, 100 + thread);
    }
    let mut objects: Vec<usize> =
        tlp.remove_column(&mut meta).iter().map(|reclaim| reclaim.object).collect();
    for &thread in &threads {
        objects.extend(meta.drop_row(thread).iter().map(|reclaim| reclaim.object));
    }
    objects.sort();
    assert_eq!(objects, vec![101, 102, 103, 104]);
}

#[test]
fn concurrent_thread_teardown_and_column_reclamation_do_not_conflict() {
    let mut meta = ThreadMetaGlobal::new();
    let first = meta.add_thread();
    let second = meta.add_thread();
    let third = meta.add_thread();
    let tlp = ThreadLocalPtr::<Thing>::new(&mut meta);
    let plain = ThreadLocalPtr::<usize>::new_with_handler(&mut meta, None);
    for thread in [first, second, third] {
        tlp.init(&mut meta, thread, thread);
        plain.init(&mut meta, thread, 50 + thread);
    }
    assert_eq!(meta.drop_row(second), vec![reclaim(second)]);
    assert_eq!(linked(&meta), vec![third, first]);
    assert_eq!(tlp.remove_column(&mut meta), vec![reclaim(third), reclaim(first)]);
    assert_eq!(meta.drop_row(first), Vec::new());
    assert_eq!(plain.get(&mut meta, third), Some(50 + third));
    assert_eq!(linked(&meta), vec![third]);
}

#[test]
fn thread_ctx_registered() {
    let mut registry = ThreadRegistry::new();
    assert!(registry.ctxs[0].next.is_none());
    let thread = registry.add_thread();
    registry.ensure_registered(thread);
    assert_eq!(registry.ctxs[thread].registered, true);
    assert!(!registry.ctxs[0].next.is_none());
}

#[test]
fn mutli_thread_register() {
    let mut registry = ThreadRegistry::new();
    for _ in 0..3 {
        let thread = registry.add_thread();
        registry.ensure_registered(thread);
        registry.ensure_registered(thread);
    }

    let mut registered_count = 0;
    let mut next = registry.ctxs[0].next;
    while let Some(thread) = next {
        registered_count += 1;
        next = registry.ctxs[thread].next;
    }

    assert_eq!(registered_count, 3);
    assert_eq!(registry.ctxs[0].next, Some(3));
    assert_eq!(registry.ctxs[0].prev, Some(1));
    assert_eq!(registry.ctxs[2].prev, Some(3));
}

#[test]
fn thread_instances_initialised_to_db_instances() {
    let mut registry = ThreadRegistry::new();
    registry.next_tls_id = 3;
    let thread = registry.add_thread();
    registry.ensure_registered(thread);
    assert_eq!(registry.ctxs[thread].instances.len(), 3);
}

#[test]
fn check_thread_instance_resize_on_new_db_instance() {
    let mut registry = ThreadRegistry::new();
    registry.next_tls_id = 3;
    let thread = registry.add_thread();
    registry.ensure_registered(thread);
    assert_eq!(registry.ctxs[thread].instances.len(), 3);

    registry.next_tls_id = 5;

    registry.ensure_registered(thread);
    assert_eq!(registry.ctxs[thread].instances.len(), 3);

    // Only resize when accessing the db instance

    registry.ctxs[thread].db_instance(4);
    assert_eq!(registry.ctxs[thread].instances.len(), 5);
    assert!(registry.ctxs[thread].instances[3].ptr.is_none());
    assert!(registry.ctxs[thread].instances[4].ptr.is_some());
}

#[test]
fn instances_are_made_once() {
    let mut entry = Entry::new();
    entry.get_or_insert_new().batch_cache.shard_idx = Some(3);
    assert_eq!(entry.get_or_insert_new().batch_cache.shard_idx, Some(3));
    let mut entry = Entry::from(Some(Box::new(DBInstanceCtx::new())));
    assert_eq!(entry.get_or_insert_new().batch_cache.cache_len(), 0);
    let mut registry = ThreadRegistry { next_tls_id: usize::MAX, ..ThreadRegistry::new() };
    assert_eq!(registry.reserve_tls_id(), usize::MAX);
    assert_eq!(registry.reserve_tls_id(), 0);
}
