//! Tallies of framing words, to check what a front end wrote.
use vstd::prelude::*;

use crate::bitmasks::{word_at, words_of, TWO_BIT};
use crate::error::DecodeError;
use crate::mdpp_bank::signature;

verus! {

/// The number of words in `ws` whose signature is `sig`.
pub open spec fn count_signature(ws: Seq<u32>, sig: u32) -> nat
    decreases ws.len(),
{
    if ws.len() == 0 {
        0
    } else {
        count_signature(ws.drop_last(), sig) + if signature(ws.last()) == sig {
            1nat
        } else {
            0nat
        }
    }
}

/// The numbers of header words and of end words in one sub-bank; fails if a
/// word has the signature that no word may have.
pub fn tally_signatures(bank: &[u8]) -> (r: Result<(usize, usize), DecodeError>)
    ensures
        match r {
            Ok((headers, ends)) => {
                &&& forall|i: int| 0 <= i < words_of(bank@).len() ==> signature(#[trigger] words_of(bank@)[i]) != 2
                &&& headers == count_signature(words_of(bank@), 1)
                &&& ends == count_signature(words_of(bank@), 3)
            },
            Err(e) => {
                &&& e == DecodeError::InvalidSignature
                &&& exists|i: int| 0 <= i < words_of(bank@).len() && signature(#[trigger] words_of(bank@)[i]) == 2
            },
        },
{
    let ghost words = words_of(bank@);
    let n = bank.len() / 4;
    let mut headers: usize = 0;
    let mut ends: usize = 0;
    let mut i: usize = 0;
    while i < n
        invariant
            words == words_of(bank@),
            n == words.len(),
            i <= n,
            headers <= i,
            ends <= i,
            headers == count_signature(words.take(i as int), 1),
            ends == count_signature(words.take(i as int), 3),
            forall|j: int| 0 <= j < i ==> signature(#[trigger] words[j]) != 2,
        decreases n - i,
    {
        let w = word_at(bank, i);
        assert(words.take(i + 1).drop_last() =~= words.take(i as int));
        let data_sig = w >> 30 & TWO_BIT;
        if data_sig == 1 {
            headers += 1;
        } else if data_sig == 3 {
            ends += 1;
        } else if data_sig == 2 {
            return Err(DecodeError::InvalidSignature);
        }
        i += 1;
    }
    assert(words.take(n as int) =~= words);
    Ok((headers, ends))
}

} // verus!
