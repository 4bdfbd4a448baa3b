//! The RFC793 one's-complement checksum.
//!
//! A byte sequence is read as big-endian 16-bit words (an odd trailing byte
//! is padded with a zero on the right), the words are added in
//! end-around-carry arithmetic, and the result is complemented.

use vstd::prelude::*;

verus! {

/// The plain integer sum of the big-endian 16-bit words of `s`, an odd
/// trailing byte padded with zero.
pub open spec fn word_sum(s: Seq<u8>) -> int
    decreases s.len(),
{
    if s.len() == 0 {
        0
    } else if s.len() == 1 {
        s[0] * 256
    } else {
        s[0] * 256 + s[1] + word_sum(s.skip(2))
    }
}

/// Fold the carries of a word sum back into the low 16 bits until none are
/// left (end-around carry).
pub open spec fn fold_carries(x: int) -> int
    recommends
        x >= 0,
    decreases x,
    when x >= 0 via fold_carries_decreases
{
    if x < 0x10000 {
        x
    } else {
        fold_carries(x % 0x10000 + x / 0x10000)
    }
}

#[via_fn]
proof fn fold_carries_decreases(x: int) {
    if x >= 0x10000 {
        assert(x % 0x10000 + x / 0x10000 < x) by (nonlinear_arith)
            requires
                x >= 0x10000,
        ;
    }
}

/// The checksum of `s`: the complement of the folded word sum.
pub open spec fn checksum_of(s: Seq<u8>) -> u16 {
    (0xffff - fold_carries(word_sum(s))) as u16
}

proof fn lemma_word_sum_bounds(s: Seq<u8>)
    ensures
        0 <= word_sum(s) <= 0xffff * (s.len() + 1),
    decreases s.len(),
{
    if s.len() >= 2 {
        lemma_word_sum_bounds(s.skip(2));
    }
}

/// One unfolding step: the word sum of the suffix from `i` is the word at
/// `i` plus the word sum of the suffix from `i + 2`.
proof fn lemma_word_sum_step(s: Seq<u8>, i: int)
    requires
        0 <= i,
        i + 2 <= s.len(),
    ensures
        word_sum(s.skip(i)) == s[i] * 256 + s[i + 1] + word_sum(s.skip(i + 2)),
{
    assert(s.skip(i).len() >= 2);
    assert(s.skip(i)[0] == s[i]);
    assert(s.skip(i)[1] == s[i + 1]);
    assert(s.skip(i).skip(2) =~= s.skip(i + 2));
}

proof fn lemma_fold_carries_range(x: int)
    requires
        x >= 0,
    ensures
        0 <= fold_carries(x) <= 0xffff,
    decreases x,
{
    if x >= 0x10000 {
        assert(x % 0x10000 + x / 0x10000 < x && x % 0x10000 + x / 0x10000 >= 0)
            by (nonlinear_arith)
            requires
                x >= 0x10000,
        ;
        lemma_fold_carries_range(x % 0x10000 + x / 0x10000);
    }
}

/// Compute the one's-complement checksum of `data`.
pub fn compute_checksum(data: &[u8]) -> (r: u16)
    requires
        data@.len() < 0x1000_0000,
    ensures
        r == checksum_of(data@),
{
    let ghost s = data@;
    let n = data.len();
    let mut acc: u64 = 0;
    let mut i: usize = 0;
    proof {
        assert(s.skip(0) =~= s);
    }
    while i + 2 <= n
        invariant
            s == data@,
            n == s.len() < 0x1000_0000,
            0 <= i <= n,
            i % 2 == 0,
            0 <= acc <= 0xffff * ((i / 2) as int + 1),
            word_sum(s) == acc + word_sum(s.skip(i as int)),
        decreases n - i,
    {
        proof {
            lemma_word_sum_step(s, i as int);
        }
        let word: u64 = (data[i] as u64) * 256 + (data[i + 1] as u64);
        acc = acc + word;
        i = i + 2;
    }
    if i < n {
        proof {
            assert(s.skip(i as int).len() == 1);
            assert(s.skip(i as int)[0] == s[i as int]);
        }
        acc = acc + (data[i] as u64) * 256;
    } else {
        proof {
            assert(s.skip(i as int).len() == 0);
        }
    }
    assert(acc == word_sum(s));
    proof {
        lemma_word_sum_bounds(s);
    }
    while acc >= 0x10000
        invariant
            acc >= 0,
            fold_carries(acc as int) == fold_carries(word_sum(s)),
        decreases acc,
    {
        proof {
            assert(acc % 0x10000 + acc / 0x10000 < acc) by (nonlinear_arith)
                requires
                    acc >= 0x10000,
            ;
        }
        acc = acc % 0x10000 + acc / 0x10000;
    }
    proof {
        lemma_word_sum_bounds(s);
        lemma_fold_carries_range(word_sum(s));
    }
    (0xffff - acc) as u16
}

} // verus!
