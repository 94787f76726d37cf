//! A vector of 32-bit lanes, and the lane-wise operations that the vector
//! backends are written in. Every operation says, lane by lane, what it
//! computes.
//!
//! The operations are plain loops over an array, one step for each lane, so
//! that they run on every processor; each stands for one instruction of a
//! vector unit, and a compiler that targets such a unit is free to use it.
use crate::bits::lemma_subset_forms;
use crate::endian::{read_word, with_words, words_at, write_word};
use crate::model::covers;
use vstd::prelude::*;

verus! {

/// `N` lanes of 32 bits each. Lane 0 is the one that is read first from
/// memory and written first to it.
#[derive(Debug, Clone, Copy)]
pub struct Lanes<const N: usize>(pub [u32; N]);

impl<const N: usize> View for Lanes<N> {
    type V = Seq<u32>;

    open spec fn view(&self) -> Seq<u32> {
        self.0@
    }
}

/// `mask` is a bitwise subset of `words`, lane by lane.
pub open spec fn covers_lanes(words: Seq<u32>, mask: Seq<u32>) -> bool {
    forall|i: int| 0 <= i < mask.len() ==> covers(#[trigger] words[i], mask[i])
}

impl<const N: usize> Lanes<N> {
    /// Every lane set to `x`.
    pub fn splat(x: u32) -> (r: Self)
        ensures
            r@.len() == N,
            forall|i: int| 0 <= i < N ==> r@[i] == x,
    {
        Lanes([x; N])
    }

    /// The `N` words of `words` from index `at` on.
    pub fn from_words(words: &[u32], at: usize) -> (r: Self)
        requires
            at + N <= words@.len(),
        ensures
            r@ == words@.subrange(at as int, at + N),
    {
        let mut lanes = [0u32; N];
        for i in 0..N
            invariant
                at + N <= words@.len(),
                forall|k: int| 0 <= k < i ==> lanes@[k] == words@[at + k],
        {
            assert(words.len() == words@.len());
            lanes[i] = words[at + i];
        }
        assert(lanes@ =~= words@.subrange(at as int, at + N));
        Lanes(lanes)
    }

    /// Reads `N` little-endian words from `buf[at..at + 4 * N]`.
    pub fn load(buf: &[u8], at: usize) -> (r: Self)
        requires
            at + 4 * N <= buf@.len(),
        ensures
            r@ == words_at(buf@, at as int, N as nat),
    {
        let mut lanes = [0u32; N];
        for i in 0..N
            invariant
                at + 4 * N <= buf@.len(),
                forall|k: int| 0 <= k < i ==> lanes@[k] == crate::endian::le_word(buf@, at + 4 * k),
        {
            assert(buf.len() == buf@.len());
            lanes[i] = read_word(buf, at + 4 * i);
        }
        assert(lanes@ =~= words_at(buf@, at as int, N as nat));
        Lanes(lanes)
    }

    /// Writes the lanes as little-endian words to `buf[at..at + 4 * N]`.
    pub fn store(self, buf: &mut [u8], at: usize)
        requires
            at + 4 * N <= old(buf)@.len(),
        ensures
            final(buf)@ == with_words(old(buf)@, at as int, self@),
    {
        for i in 0..N
            invariant
                buf@.len() == old(buf)@.len(),
                at + 4 * N <= buf@.len(),
                buf@ == with_words(old(buf)@, at as int, self@.take(i as int)),
        {
            assert(buf.len() == buf@.len());
            write_word(buf, at + 4 * i, self.0[i]);
            assert(buf@ =~= with_words(old(buf)@, at as int, self@.take(i + 1))) by {
                let now = with_words(old(buf)@, at as int, self@.take(i + 1));
                assert forall|j: int| 0 <= j < buf@.len() implies buf@[j] == now[j] by {
                    if at + 4 * i <= j < at + 4 * i + 4 {
                        assert((j - at) / 4 == i);
                    } else if at <= j < at + 4 * i {
                        assert((j - at) / 4 < i);
                    }
                }
            }
        }
        assert(self@.take(N as int) =~= self@);
    }

    /// Lane-wise product, keeping the low 32 bits of each.
    pub fn wrapping_mul(self, other: Self) -> (r: Self)
        ensures
            r@.len() == N,
            forall|i: int|
                0 <= i < N ==> r@[i] == vstd::wrapping::u32_specs::wrapping_mul(
                    self@[i],
                    other@[i],
                ),
    {
        let mut lanes = self.0;
        for i in 0..N
            invariant
                forall|k: int|
                    0 <= k < i ==> lanes@[k] == vstd::wrapping::u32_specs::wrapping_mul(
                        self@[k],
                        other@[k],
                    ),
                forall|k: int| i <= k < N ==> lanes@[k] == self@[k],
        {
            lanes[i] = lanes[i].wrapping_mul(other.0[i]);
        }
        Lanes(lanes)
    }

    /// Every lane shifted right by the same `count`, filling with zeros. A
    /// count of 32 or more leaves no bit in any lane.
    pub fn shr(self, count: u32) -> (r: Self)
        ensures
            r@.len() == N,
            forall|i: int|
                0 <= i < N ==> r@[i] == if count < 32 {
                    self@[i] >> count
                } else {
                    0
                },
    {
        let mut lanes = self.0;
        for i in 0..N
            invariant
                forall|k: int|
                    0 <= k < i ==> lanes@[k] == if count < 32 {
                        self@[k] >> count
                    } else {
                        0
                    },
                forall|k: int| i <= k < N ==> lanes@[k] == self@[k],
        {
            lanes[i] = if count < 32 {
                lanes[i] >> count
            } else {
                0
            };
        }
        Lanes(lanes)
    }

    /// Every lane shifted left by the count in the same lane of `counts`.
    /// A count of 32 or more leaves no bit in the lane.
    pub fn shl_each(self, counts: Self) -> (r: Self)
        ensures
            r@.len() == N,
            forall|i: int|
                0 <= i < N ==> r@[i] == if counts@[i] < 32 {
                    self@[i] << counts@[i]
                } else {
                    0
                },
    {
        let mut lanes = self.0;
        for i in 0..N
            invariant
                forall|k: int|
                    0 <= k < i ==> lanes@[k] == if counts@[k] < 32 {
                        self@[k] << counts@[k]
                    } else {
                        0
                    },
                forall|k: int| i <= k < N ==> lanes@[k] == self@[k],
        {
            let count = counts.0[i];
            lanes[i] = if count < 32 {
                lanes[i] << count
            } else {
                0
            };
        }
        Lanes(lanes)
    }

    /// Lane-wise bitwise or.
    pub fn bitor(self, other: Self) -> (r: Self)
        ensures
            r@.len() == N,
            forall|i: int| 0 <= i < N ==> r@[i] == self@[i] | other@[i],
    {
        let mut lanes = self.0;
        for i in 0..N
            invariant
                forall|k: int| 0 <= k < i ==> lanes@[k] == self@[k] | other@[k],
                forall|k: int| i <= k < N ==> lanes@[k] == self@[k],
        {
            lanes[i] = lanes[i] | other.0[i];
        }
        Lanes(lanes)
    }

    /// Lane-wise bitwise and.
    pub fn bitand(self, other: Self) -> (r: Self)
        ensures
            r@.len() == N,
            forall|i: int| 0 <= i < N ==> r@[i] == self@[i] & other@[i],
    {
        let mut lanes = self.0;
        for i in 0..N
            invariant
                forall|k: int| 0 <= k < i ==> lanes@[k] == self@[k] & other@[k],
                forall|k: int| i <= k < N ==> lanes@[k] == self@[k],
        {
            lanes[i] = lanes[i] & other.0[i];
        }
        Lanes(lanes)
    }

    /// Lane-wise `self & !other`: the bits of `self` that `other` lacks.
    pub fn and_not(self, other: Self) -> (r: Self)
        ensures
            r@.len() == N,
            forall|i: int| 0 <= i < N ==> r@[i] == self@[i] & !other@[i],
    {
        let mut lanes = self.0;
        for i in 0..N
            invariant
                forall|k: int| 0 <= k < i ==> lanes@[k] == self@[k] & !other@[k],
                forall|k: int| i <= k < N ==> lanes@[k] == self@[k],
        {
            lanes[i] = lanes[i] & !other.0[i];
        }
        Lanes(lanes)
    }

    /// Lane-wise comparison: a lane is all ones where the two are equal and
    /// zero where they differ.
    pub fn eq_mask(self, other: Self) -> (r: Self)
        ensures
            r@.len() == N,
            forall|i: int|
                0 <= i < N ==> r@[i] == if self@[i] == other@[i] {
                    0xffff_ffffu32
                } else {
                    0u32
                },
    {
        let mut lanes = self.0;
        for i in 0..N
            invariant
                forall|k: int|
                    0 <= k < i ==> lanes@[k] == if self@[k] == other@[k] {
                        0xffff_ffffu32
                    } else {
                        0u32
                    },
                forall|k: int| i <= k < N ==> lanes@[k] == self@[k],
        {
            lanes[i] = if lanes[i] == other.0[i] {
                0xffff_ffff
            } else {
                0
            };
        }
        Lanes(lanes)
    }

    /// The smallest lane.
    pub fn min_lane(self) -> (least: u32)
        requires
            N > 0,
        ensures
            forall|i: int| 0 <= i < N ==> least <= self@[i],
            exists|i: int| 0 <= i < N && least == self@[i],
    {
        let mut least = self.0[0];
        let ghost mut at: int = 0;
        for i in 1..N
            invariant
                0 <= at < N,
                least == self@[at],
                forall|k: int| 0 <= k < i ==> least <= self@[k],
        {
            if self.0[i] < least {
                least = self.0[i];
                proof {
                    at = i as int;
                }
            }
        }
        least
    }

    /// True when any bit of any lane is set.
    pub fn any_set(self) -> (any: bool)
        ensures
            any == exists|i: int| 0 <= i < N && self@[i] != 0,
    {
        for i in 0..N
            invariant
                forall|k: int| 0 <= k < i ==> self@[k] == 0,
        {
            if self.0[i] != 0 {
                assert(0 <= i < N && self@[i as int] != 0);
                return true;
            }
        }
        false
    }

    /// True when no lane of `mask` has a bit that the same lane of `self`
    /// lacks: `!self & mask` is zero in every lane.
    pub fn test_covers(self, mask: Self) -> (all: bool)
        ensures
            all == covers_lanes(self@, mask@),
    {
        for i in 0..N
            invariant
                forall|k: int| 0 <= k < i ==> covers(#[trigger] self@[k], mask@[k]),
        {
            proof {
                lemma_subset_forms(self@[i as int], mask@[i as int]);
            }
            if !self.0[i] & mask.0[i] != 0 {
                assert(!covers(self@[i as int], mask@[i as int]));
                return false;
            }
        }
        true
    }
}

} // verus!
