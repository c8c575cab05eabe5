//! The fixed-triplet family: every three words are one independent hit.
use vstd::prelude::*;

use crate::bitmasks::{decode_words, words_of, FOUR_BIT, SIXTEEN_BIT, TEN_BIT};

verus! {

/// One hit of a wide digitizer. Its continuous time is
/// `coarse_time + fine_time / 1024`.
#[allow(non_camel_case_types)]
#[derive(Clone, Copy, Debug, PartialEq, Eq, Structural)]
pub struct v1730Hit {
    pub channel: u32,
    pub long: u32,
    pub coarse_time: u64,
    /// Fractions of a coarse time unit, in 1024ths.
    pub fine_time: u32,
}

/// The hit that the words `w0`, `w1`, `w2` describe.
pub open spec fn triplet_hit(w0: u32, w1: u32, w2: u32) -> v1730Hit {
    v1730Hit {
        channel: (w0 >> 16u32) & FOUR_BIT,
        long: w0 & SIXTEEN_BIT,
        coarse_time: (((w2 >> 16u32) & SIXTEEN_BIT) as int * 0x8000_0000 + w1 as int) as u64,
        fine_time: w2 & TEN_BIT,
    }
}

/// The hits of a word sequence, one per complete group of three words.
pub open spec fn triplet_hits(words: Seq<u32>) -> Seq<v1730Hit> {
    Seq::new(
        words.len() / 3,
        |k: int| triplet_hit(words[3 * k], words[3 * k + 1], words[3 * k + 2]),
    )
}

impl v1730Hit {
    pub fn new(hit_data: &[u32]) -> (r: Self)
        requires
            hit_data@.len() >= 3,
        ensures
            r == triplet_hit(hit_data@[0], hit_data@[1], hit_data@[2]),
    {
        let channel = (hit_data[0] >> 16) & FOUR_BIT;
        let long = hit_data[0] & SIXTEEN_BIT;
        let time_std = hit_data[1] as u64;
        let w2 = hit_data[2];
        let ext = (w2 >> 16) & SIXTEEN_BIT;
        assert(ext <= 0xFFFF) by (bit_vector)
            requires
                ext == (w2 >> 16u32) & 0xFFFFu32,
        ;
        let time_ext = ext as u64;
        assert(time_ext << 31u64 == time_ext * 0x8000_0000) by (bit_vector)
            requires
                time_ext <= 0xFFFF,
        ;
        let coarse_time = (time_ext << 31) + time_std;
        let fine_time = w2 & TEN_BIT;
        v1730Hit { channel, long, coarse_time, fine_time }
    }
}

/// The decoder of one wide digitizer.
#[allow(non_camel_case_types)]
pub struct v1730Bank {
    pub hits: Vec<v1730Hit>,
}

impl v1730Bank {
    pub fn new() -> (r: Self)
        ensures
            r.hits@ == Seq::<v1730Hit>::empty(),
    {
        let r = v1730Bank { hits: Vec::with_capacity(100) };
        assert(r.hits@ =~= Seq::<v1730Hit>::empty());
        r
    }

    /// Appends one hit per complete group of three words; a shorter rest is dropped.
    pub fn parse(&mut self, bank: &[u8])
        requires
            bank@.len() % 4 == 0,
        ensures
            final(self).hits@ == old(self).hits@ + triplet_hits(words_of(bank@)),
    {
        let all_words = decode_words(bank);
        let nwords = all_words.len();
        let ngroups = nwords / 3;
        let mut k: usize = 0;
        while k < ngroups
            invariant
                all_words@ == words_of(bank@),
                nwords == all_words@.len(),
                ngroups == all_words@.len() / 3,
                k <= ngroups,
                self.hits@ == old(self).hits@ + triplet_hits(all_words@).take(k as int),
            decreases ngroups - k,
        {
            assert(3 * k + 2 < all_words@.len()) by (nonlinear_arith)
                requires
                    k < ngroups,
                    ngroups == all_words@.len() / 3,
            ;
            let group = [all_words[3 * k], all_words[3 * k + 1], all_words[3 * k + 2]];
            let hit = v1730Hit::new(group.as_slice());
            self.hits.push(hit);
            k += 1;
            assert(self.hits@ =~= old(self).hits@ + triplet_hits(all_words@).take(k as int));
        }
        assert(triplet_hits(all_words@).take(ngroups as int) =~= triplet_hits(all_words@));
    }

    /// Hands out the buffered hits.
    pub fn take_hits(&mut self) -> (r: Vec<v1730Hit>)
        ensures
            r@ == old(self).hits@,
            final(self).hits@ == Seq::<v1730Hit>::empty(),
    {
        let mut out: Vec<v1730Hit> = Vec::new();
        std::mem::swap(&mut out, &mut self.hits);
        assert(self.hits@ =~= Seq::<v1730Hit>::empty());
        out
    }
}

} // verus!
