//! The Internet checksum (one's-complement sum of 16-bit big-endian words),
//! used by the IPv4 header and by the TCP/UDP transport headers.

use vstd::prelude::*;

verus! {

/// Sum of the 16-bit big-endian words of `data`; an odd trailing byte is
/// treated as the high byte of a final word (zero padded on the right).
pub open spec fn word_sum(data: Seq<u8>) -> int
    decreases data.len(),
{
    if data.len() == 0 {
        0
    } else if data.len() == 1 {
        data[0] * 256
    } else {
        data[0] * 256 + data[1] + word_sum(data.skip(2))
    }
}

/// Folds the carries of a one's-complement accumulator until it fits 16 bits.
pub open spec fn fold_carries(x: nat) -> nat
    decreases x,
{
    if x <= 0xffff {
        x
    } else {
        fold_carries((x % 0x10000 + x / 0x10000) as nat)
    }
}

pub proof fn lemma_word_sum_nonneg(data: Seq<u8>)
    ensures
        word_sum(data) >= 0,
    decreases data.len(),
{
    if data.len() >= 2 {
        lemma_word_sum_nonneg(data.skip(2));
    }
}

pub proof fn lemma_fold_carries_bound(x: nat)
    ensures
        fold_carries(x) <= 0xffff,
    decreases x,
{
    if x > 0xffff {
        lemma_fold_carries_bound((x % 0x10000 + x / 0x10000) as nat);
    }
}

/// The Internet checksum of a byte sequence: the one's complement of the
/// folded one's-complement word sum.
pub open spec fn checksum_of(data: Seq<u8>) -> u16 {
    (0xffff - fold_carries(word_sum(data) as nat)) as u16
}

/// Computes the Internet checksum over `data[start..end]`.
pub fn internet_checksum(data: &[u8], start: usize, end: usize) -> (r: u16)
    requires
        start <= end,
        end <= data@.len(),
        end - start <= 0x10000,
    ensures
        r == checksum_of(data@.subrange(start as int, end as int)),
{
    let ghost whole: Seq<u8> = data@.subrange(start as int, end as int);
    proof {
        lemma_word_sum_nonneg(whole);
        assert(whole.skip(0) =~= whole);
    }
    let mut sum: u32 = 0;
    let mut i: usize = start;
    while i < end
        invariant
            start <= i <= end,
            end <= data@.len(),
            end - start <= 0x10000,
            whole == data@.subrange(start as int, end as int),
            sum + word_sum(whole.skip(i - start)) == word_sum(whole),
            sum <= 0xffff * (i - start),
        decreases end - i,
    {
        let ghost rest: Seq<u8> = whole.skip(i - start);
        let hi: u32 = data[i] as u32;
        if i + 1 < end {
            let lo: u32 = data[i + 1] as u32;
            proof {
                assert(rest.len() >= 2);
                assert(rest[0] == whole[i - start]);
                assert(rest[1] == whole[i - start + 1]);
                assert(rest.skip(2) =~= whole.skip(i - start + 2));
                lemma_word_sum_nonneg(rest.skip(2));
            }
            sum = sum + (hi * 256 + lo);
            i = i + 2;
        } else {
            proof {
                assert(rest.len() == 1);
                assert(rest[0] == whole[i - start]);
            }
            sum = sum + hi * 256;
            i = i + 1;
        }
    }
    proof {
        assert(whole.skip(i - start) =~= Seq::<u8>::empty());
        assert(word_sum(whole.skip(i - start)) == 0);
    }
    while sum > 0xffff
        invariant
            fold_carries(sum as nat) == fold_carries(word_sum(whole) as nat),
        decreases sum,
    {
        sum = sum % 0x10000 + sum / 0x10000;
    }
    proof {
        lemma_fold_carries_bound(word_sum(whole) as nat);
        assert(fold_carries(sum as nat) == sum);
    }
    0xffff - (sum as u16)
}

} // verus!
