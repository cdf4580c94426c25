use ordinum::db::batch::BatchInner;
use ordinum::db::write_thread::{WriteGroup, WriteThread};
use ordinum::db::writer::{WaitStep, Writer, WriterState};

fn writer(batch_size: usize) -> Writer {
    Writer {
        batch_size,
        batch_empty: false,
        state: WriterState::INIT,
        link_older: None,
        group_next: None,
        sync: true,
    }
}

/// The queue from its newest writer to its oldest.
fn newest_first(thread: &WriteThread) -> Vec<usize> {
    let mut order = Vec::new();
    let mut next = thread.newest_writer;
    while let Some(index) = next {
        order.push(index);
        next = thread.writers[index].link_older;
    }
    order
}

/// The writers that follow `first` by their group links.
fn group_from(thread: &WriteThread, first: usize) -> Vec<usize> {
    let mut order = vec![first];
    let mut next = thread.writers[first].group_next;
    while let Some(index) = next {
        order.push(index);
        next = thread.writers[index].group_next;
    }
    order
}

#[test]
fn entering_as_group() {
    let mut thread = WriteThread::new();
    let leader = Writer { state: WriterState::INIT | WriterState::LEADER, ..writer(100) };
    let (first, group) = thread.join(leader);
    let mut group: WriteGroup = group.unwrap();
    assert!(thread.writers[first].is_leader());

    // The limit is 231: the second is too large, the fourth is not synced, and
    // the fifth is empty.
    assert!(thread.join(writer(232)).1.is_none());
    assert!(thread.join(writer(231)).1.is_none());
    assert!(thread.join(Writer { sync: false, ..writer(10) }).1.is_none());
    assert!(thread.join(Writer { batch_empty: true, ..writer(12) }).1.is_none());
    assert!(thread.join(writer(50)).1.is_none());

    thread.enter_batch_group(first, &mut group);

    assert_eq!(group_from(&thread, first), vec![0, 2, 5, 1, 3, 4]);
    assert_eq!(newest_first(&thread), vec![4, 3, 1, 5, 2, 0]);
    assert_eq!(group.leader, 0);
    assert_eq!(group.last_writer, Some(5));
    assert_eq!(group.size, 3);
    assert_eq!(group.writers, 1);
}

#[test]
fn writers_that_come_while_a_group_forms_stay_behind() {
    let mut thread = WriteThread::default();
    let mut group = WriteGroup::new(0);
    for size in [2000, 1048, 1049, 1, 1] {
        thread.link_writer(writer(size));
    }
    // The leader saw three writers. It is large, so the limit is 1048.
    thread.enter_batch_group_at(0, 2, &mut group);
    assert_eq!(group_from(&thread, 0), vec![0, 1, 2]);
    assert_eq!(newest_first(&thread), vec![4, 3, 2, 1, 0]);
    assert_eq!(group.last_writer, Some(1));
    assert_eq!(group.size, 2);

    let mut thread = WriteThread::default();
    let mut group = WriteGroup::new(0);
    for size in [2000, 1049, 1048, 1, 1] {
        thread.link_writer(writer(size));
    }
    thread.enter_batch_group_at(0, 2, &mut group);
    assert_eq!(group_from(&thread, 0), vec![0, 2, 1]);
    assert_eq!(newest_first(&thread), vec![4, 3, 1, 2, 0]);
}

#[test]
fn only_a_small_leader_lowers_the_limit() {
    // The group of a leader of `leader` bytes takes in followers up to `limit`.
    for (leader, limit) in [(0, 131), (130, 261), (131, 1048), (200, 1048), (1048, 1048)] {
        let mut thread = WriteThread::new();
        let mut group = WriteGroup::new(0);
        for size in [leader, limit + 1, limit] {
            thread.link_writer(writer(size));
        }
        thread.enter_batch_group(0, &mut group);
        assert_eq!(group_from(&thread, 0), vec![0, 2, 1]);
        assert_eq!(group.last_writer, Some(2));
        assert_eq!(group.size, 2);
    }

    let mut thread = WriteThread::new();
    let mut group = WriteGroup::new(0);
    thread.link_writer(writer(200));
    let (follower, _) = thread.link_writer(writer(400));
    thread.enter_batch_group(0, &mut group);
    assert_eq!(group.last_writer, Some(follower));
    assert_eq!(group.size, 2);
}

#[test]
fn a_leader_alone_is_its_group() {
    let mut thread = WriteThread::new();
    let (index, empty) = thread.link_writer(writer(5));
    assert_eq!((index, empty), (0, true));
    let mut group = WriteGroup::new(0);
    thread.enter_batch_group(0, &mut group);
    assert_eq!(group.size, 1);
    assert_eq!(group.last_writer, Some(0));
    assert_eq!(group_from(&thread, 0), vec![0]);
}

#[test]
fn group_links_run_from_the_oldest_up() {
    let mut thread = WriteThread::new();
    for _ in 0..4 {
        thread.link_writer(writer(1));
    }
    thread.set_new_links(2);
    assert_eq!(group_from(&thread, 0), vec![0, 1, 2]);
    thread.set_new_links(3);
    assert_eq!(group_from(&thread, 0), vec![0, 1, 2, 3]);
    assert_eq!(newest_first(&thread), vec![3, 2, 1, 0]);
}

#[test]
fn writer_state() {
    let batch = BatchInner::new();
    let mut writer = Writer::new(&batch);

    writer.state = WriterState::LEADER;

    assert!(writer.is_leader());
}

#[test]
fn a_writer_knows_its_batch() {
    let mut batch = BatchInner::new();
    let writer = Writer::new(&batch);
    assert_eq!(writer.batch_size, 12);
    assert!(writer.batch_empty);
    assert!(writer.sync);
    assert!(!writer.is_leader());
    batch.put(0, b"hello", b"world").unwrap();
    let writer = Writer::new(&batch);
    assert_eq!(writer.batch_size, 33);
    assert!(!writer.batch_empty);
}

#[test]
fn flags_in_words() {
    assert_eq!(WriterState::debug(0), "NO_STATE");
    assert_eq!(WriterState::debug(WriterState::LEADER), "LEADER");
    assert_eq!(WriterState::debug(WriterState::INIT | WriterState::COMPLETE), "INIT | COMPLETE");
    assert_eq!(WriterState::debug(0xff), "INIT | LEADER | LOCKED_WAITING | COMPLETE");
    assert_eq!(WriterState::debug(0xf0), "NO_STATE");
}

#[test]
fn wait_and_block_wakes_after_complete() {
    let mut writer = Writer::new(&BatchInner::new());
    writer.state |= WriterState::INIT;
    let mut wait = writer.wait_and_block();
    assert_eq!(wait.observe(writer.state), WaitStep::Announce);
    writer.state |= WriterState::LOCKED_WAITING;
    assert_eq!(wait.observe(writer.state), WaitStep::Park);
    assert_eq!(wait.observe(writer.state), WaitStep::Park);
    writer.state |= WriterState::COMPLETE;
    assert_eq!(wait.observe(writer.state), WaitStep::Return);

    assert!(writer.state & WriterState::COMPLETE != 0);
    assert!(writer.state & WriterState::LOCKED_WAITING != 0);
}

#[test]
fn follower_promoted_to_leader() {
    let mut writer = Writer::new(&BatchInner::new());
    let mut wait = writer.wait_and_block();
    assert_eq!(wait.observe(writer.state), WaitStep::Announce);
    writer.state |= WriterState::LOCKED_WAITING;
    assert_eq!(wait.observe(writer.state), WaitStep::Park);
    writer.state |= WriterState::LEADER;
    assert_eq!(wait.observe(writer.state), WaitStep::Return);

    // Woke up as leader, not complete.
    assert!(writer.state & WriterState::LEADER != 0);
    assert!(writer.state & WriterState::COMPLETE == 0);
}

#[test]
fn a_follower_polls_before_it_sleeps() {
    let state = WriterState::INIT;
    let writer = Writer { state, ..writer(1) };
    let mut wait = writer.wait();
    for _ in 0..200 {
        assert_eq!(wait.observe(state), WaitStep::Spin);
    }
    // Becoming leader does not end the wait of a writer that polls.
    for _ in 0..64 {
        assert_eq!(wait.observe(state | WriterState::LEADER), WaitStep::Yield);
    }
    assert_eq!(wait.observe(state), WaitStep::Announce);
    assert_eq!(wait.observe(state | WriterState::LEADER), WaitStep::Return);

    let mut wait = writer.wait();
    assert_eq!(wait.observe(state), WaitStep::Spin);
    assert_eq!(wait.observe(state | WriterState::COMPLETE), WaitStep::Return);
}
