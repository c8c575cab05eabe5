//! The flat-snapshot family: each sub-bank is one hit of 32 values, stamped
//! with a counter that the decoder keeps itself.
use vstd::prelude::*;

use crate::bitmasks::{word_at, words_of};

verus! {

/// The number of values in one snapshot.
pub const SNAPSHOT_VALUES: usize = 32;

/// One snapshot and its event number.
#[allow(non_camel_case_types)]
pub struct v785Hit {
    pub values: [u32; 32],
    pub evt: u32,
}

impl v785Hit {
    /// A snapshot with every value at zero.
    pub fn new(evt: u32) -> (r: v785Hit)
        ensures
            r.values@ == Seq::new(32, |i: int| 0u32),
            r.evt == evt,
    {
        let values: [u32; 32] = [0; 32];
        let r = v785Hit { values, evt };
        assert(r.values@ =~= Seq::new(32, |i: int| 0u32));
        r
    }
}

/// The decoder of one snapshot module.
#[allow(non_camel_case_types)]
pub struct v785Bank {
    pub hits: Vec<v785Hit>,
    /// The event number that the next snapshot gets.
    pub global_evt_num: u32,
}

/// The number after `n`, wrapping past the largest `u32`.
pub open spec fn next_number(n: u32) -> u32 {
    if n == u32::MAX {
        0
    } else {
        (n + 1) as u32
    }
}

impl v785Bank {
    pub open spec fn next_event_number(&self) -> u32 {
        self.global_evt_num
    }

    pub fn new() -> (r: v785Bank)
        ensures
            r.hits@ == Seq::<v785Hit>::empty(),
            r.next_event_number() == 0,
    {
        let r = v785Bank { hits: Vec::with_capacity(100), global_evt_num: 0 };
        assert(r.hits@ =~= Seq::<v785Hit>::empty());
        r
    }

    fn add_hit(&mut self, data: &[u8])
        requires
            data@.len() % 4 == 0,
            data@.len() >= 4 * 32,
        ensures
            final(self).hits@.len() == old(self).hits@.len() + 1,
            final(self).hits@.take(old(self).hits@.len() as int) == old(self).hits@,
            final(self).hits@.last().values@ == words_of(data@).take(32),
            final(self).hits@.last().evt == old(self).next_event_number(),
            final(self).next_event_number() == next_number(old(self).next_event_number()),
    {
        let mut current_hit = v785Hit::new(self.global_evt_num);
        // the bank carries a few more words; only the first 32 are values
        let mut i: usize = 0;
        while i < SNAPSHOT_VALUES
            invariant
                data@.len() % 4 == 0,
                data@.len() >= 4 * 32,
                i <= 32,
                current_hit.evt == self.global_evt_num,
                current_hit.values@.take(i as int) == words_of(data@).take(i as int),
            decreases 32 - i,
        {
            current_hit.values[i] = word_at(data, i);
            i += 1;
            assert(current_hit.values@.take(i as int) =~= words_of(data@).take(i as int));
        }
        assert(current_hit.values@ =~= current_hit.values@.take(32));
        // store and increment
        self.global_evt_num = if self.global_evt_num == u32::MAX {
            0
        } else {
            self.global_evt_num + 1
        };
        self.hits.push(current_hit);
        assert(self.hits@.take(old(self).hits@.len() as int) =~= old(self).hits@);
    }

    /// Records the sub-bank as one snapshot with the next event number.
    pub fn parse(&mut self, bank: &[u8])
        requires
            bank@.len() % 4 == 0,
            bank@.len() >= 4 * 32,
        ensures
            final(self).hits@.len() == old(self).hits@.len() + 1,
            final(self).hits@.take(old(self).hits@.len() as int) == old(self).hits@,
            final(self).hits@.last().values@ == words_of(bank@).take(32),
            final(self).hits@.last().evt == old(self).next_event_number(),
            final(self).next_event_number() == next_number(old(self).next_event_number()),
    {
        self.add_hit(bank);
    }

    /// Hands out the buffered snapshots; the event numbering goes on.
    pub fn take_hits(&mut self) -> (r: Vec<v785Hit>)
        ensures
            r@ == old(self).hits@,
            final(self).hits@ == Seq::<v785Hit>::empty(),
            final(self).next_event_number() == old(self).next_event_number(),
    {
        let mut out: Vec<v785Hit> = Vec::new();
        std::mem::swap(&mut out, &mut self.hits);
        assert(self.hits@ =~= Seq::<v785Hit>::empty());
        out
    }
}

} // verus!
