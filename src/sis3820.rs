//! The fixed-width scaler family: scans of 32 free-running counters.
use vstd::prelude::*;

use crate::bitmasks::{word_at, words_of};

verus! {

/// The number of counters in one scan.
pub const SCALER_CHANNELS: usize = 32;

/// One scan of the counters.
pub struct ScalerBank {
    pub data: Vec<u32>,
}

/// The complete groups of 32 words in `words`, in order; a shorter rest is left out.
pub open spec fn scaler_groups(words: Seq<u32>) -> Seq<Seq<u32>> {
    Seq::new(
        words.len() / 32,
        |k: int| words.subrange(32 * k, 32 * k + 32),
    )
}

impl ScalerBank {
    /// A scan with every counter at zero.
    pub fn new() -> (r: Self)
        ensures
            r.data@ == Seq::new(32, |i: int| 0u32),
    {
        let r = ScalerBank { data: vec![0; SCALER_CHANNELS] };
        assert(r.data@ =~= Seq::new(32, |i: int| 0u32));
        r
    }

    /// Stores the words of `bank` in the first counters, in order.
    pub fn parse(&mut self, bank: &[u8])
        requires
            bank@.len() % 4 == 0,
            bank@.len() / 4 <= old(self).data@.len(),
        ensures
            final(self).data@ == words_of(bank@) + old(self).data@.skip((bank@.len() / 4) as int),
    {
        let n = bank.len() / 4;
        let mut i: usize = 0;
        while i < n
            invariant
                n == bank@.len() / 4,
                i <= n,
                n <= self.data@.len(),
                self.data@.len() == old(self).data@.len(),
                self.data@ == words_of(bank@).take(i as int) + old(self).data@.skip(i as int),
            decreases n - i,
        {
            let temp = word_at(bank, i);
            self.data.set(i, temp);
            i += 1;
            assert(self.data@ =~= words_of(bank@).take(i as int) + old(self).data@.skip(i as int));
        }
        assert(words_of(bank@).take(n as int) =~= words_of(bank@));
    }

    /// Splits a scaler sub-bank into scans of 32 counters; words left over
    /// after the last complete scan are dropped.
    pub fn split(bank: &[u8]) -> (r: Vec<ScalerBank>)
        ensures
            r@.len() == scaler_groups(words_of(bank@)).len(),
            forall|k: int| 0 <= k < r@.len() ==> #[trigger] r@[k].data@ == scaler_groups(words_of(bank@))[k],
    {
        let ghost words = words_of(bank@);
        let blen = bank.len();
        let nscans = blen / 4 / SCALER_CHANNELS;
        let mut out: Vec<ScalerBank> = Vec::new();
        let mut k: usize = 0;
        while k < nscans
            invariant
                words == words_of(bank@),
                blen == bank@.len(),
                nscans == words.len() / 32,
                k <= nscans,
                out@.len() == k,
                forall|j: int| 0 <= j < k ==> #[trigger] out@[j].data@ == scaler_groups(words)[j],
            decreases nscans - k,
        {
            let mut scan: Vec<u32> = Vec::with_capacity(SCALER_CHANNELS);
            let mut i: usize = 0;
            while i < SCALER_CHANNELS
                invariant
                    words == words_of(bank@),
                    blen == bank@.len(),
                    nscans == words.len() / 32,
                    k < nscans,
                    i <= 32,
                    scan@ == words.subrange(32 * k, 32 * k + i),
                decreases 32 - i,
            {
                assert(32 * k + i < words.len()) by (nonlinear_arith)
                    requires
                        k < nscans,
                        i < 32,
                        nscans == words.len() / 32,
                ;
                assert(words.len() == bank@.len() / 4);
                let w = word_at(bank, 32 * k + i);
                scan.push(w);
                i += 1;
                assert(scan@ =~= words.subrange(32 * k, 32 * k + i));
            }
            out.push(ScalerBank { data: scan });
            k += 1;
        }
        out
    }
}

} // verus!
