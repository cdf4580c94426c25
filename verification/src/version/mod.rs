//! Versions of the database, and the sequence numbers that order its writes.

pub mod superversion;

use vstd::prelude::*;

verus! {

/// The sequence numbers of the whole database.
#[derive(Debug, PartialEq, Eq, Structural)]
pub struct SeqNumState {
    /// The highest sequence number that readers may observe.
    pub visible_seq_num: u64,
    /// The upper bound of the sequence numbers handed to the commit pipeline.
    pub log_seq_num: u64,
}

impl Default for SeqNumState {
    fn default() -> (state: Self)
        ensures
            state == (SeqNumState { visible_seq_num: 0, log_seq_num: 0 }),
    {
        SeqNumState::new()
    }
}

impl SeqNumState {
    /// Nothing is written yet.
    pub fn new() -> (state: Self)
        ensures
            state == (SeqNumState { visible_seq_num: 0, log_seq_num: 0 }),
    {
        SeqNumState { visible_seq_num: 0, log_seq_num: 0 }
    }

    /// The upper bound of the sequence numbers handed out so far.
    pub fn load_log_seq_num(&self) -> (seq_num: u64)
        ensures
            seq_num == self.log_seq_num,
    {
        self.log_seq_num
    }

    /// Hands out `count` sequence numbers, and returns the first of them. The
    /// numbers wrap around at the end of their range.
    pub fn reserve(&mut self, count: u64) -> (first: u64)
        ensures
            first == old(self).log_seq_num,
            final(self).log_seq_num == (old(self).log_seq_num + count) % 0x1_0000_0000_0000_0000,
            final(self).visible_seq_num == old(self).visible_seq_num,
    {
        let first = self.log_seq_num;
        self.log_seq_num = first.wrapping_add(count);
        first
    }
}

} // verus!
