//! Subsets of a small goal list, one bit per entry.

use vstd::prelude::*;

use crate::model::passive_texts;
use crate::model::PassiveName;

verus! {

/// Subset of a small goal list (desired passives, required progenitors,
/// IV minimums).
#[derive(Clone, Copy, PartialEq, Eq, Structural, Hash, Debug)]
pub struct DesiredMask(pub u8);

/// Entry `i` is in the subset.
pub open spec fn has_bit(bits: u8, i: u8) -> bool {
    (bits >> i) & 1 == 1
}

/// The subset of the first `n` entries that have the property `p`.
pub open spec fn bits_of(p: spec_fn(int) -> bool, n: nat) -> u8
    decreases n,
{
    if n == 0 {
        0
    } else if p(n - 1) {
        bits_of(p, (n - 1) as nat) | (1u8 << ((n - 1) as u8))
    } else {
        bits_of(p, (n - 1) as nat)
    }
}

/// The whole of a list of `n` entries.
pub open spec fn all_bits(n: nat) -> u8 {
    bits_of(|i: int| true, n)
}

/// How many entries a subset holds.
pub open spec fn bit_count(bits: u8) -> int {
    (bits & 1) + ((bits >> 1u8) & 1) + ((bits >> 2u8) & 1) + ((bits >> 3u8) & 1) + ((bits >> 4u8)
        & 1) + ((bits >> 5u8) & 1) + ((bits >> 6u8) & 1) + ((bits >> 7u8) & 1)
}

/// The entries of a list that a subset holds.
pub open spec fn picked(bits: u8, list: Seq<Seq<char>>) -> Seq<Seq<char>>
    decreases list.len(),
{
    if list.len() == 0 {
        list
    } else {
        let rest = picked(bits, list.drop_last());
        if has_bit(bits, (list.len() - 1) as u8) {
            rest.push(list.last())
        } else {
            rest
        }
    }
}

proof fn lemma_or_bit(bits: u8, k: u8, i: u8)
    by (bit_vector)
    requires
        k < 8,
        i < 8,
    ensures
        has_bit(bits | (1u8 << k), i) == (has_bit(bits, i) || i == k),
{
}

/// The subset holds exactly the entries with the property.
pub proof fn lemma_bits_of(p: spec_fn(int) -> bool, n: nat, i: u8)
    requires
        n <= 8,
        i < 8,
    ensures
        has_bit(bits_of(p, n), i) == (i < n && p(i as int)),
    decreases n,
{
    if n == 0 {
        assert((0u8 >> i) & 1 == 0) by (bit_vector)
            requires
                i < 8,
        ;
    } else {
        lemma_bits_of(p, (n - 1) as nat, i);
        lemma_or_bit(bits_of(p, (n - 1) as nat), (n - 1) as u8, i);
    }
}

/// A union holds what either side holds.
pub proof fn lemma_union_bit(a: u8, b: u8, i: u8)
    by (bit_vector)
    requires
        i < 8,
    ensures
        has_bit(a | b, i) == (has_bit(a, i) || has_bit(b, i)),
{
}

/// Subsets with the same entries are the same.
pub proof fn lemma_same_bits(a: u8, b: u8)
    requires
        forall|i: u8| i < 8 ==> #[trigger] has_bit(a, i) == has_bit(b, i),
    ensures
        a == b,
{
    assert(has_bit(a, 0) == has_bit(b, 0));
    assert(has_bit(a, 1) == has_bit(b, 1));
    assert(has_bit(a, 2) == has_bit(b, 2));
    assert(has_bit(a, 3) == has_bit(b, 3));
    assert(has_bit(a, 4) == has_bit(b, 4));
    assert(has_bit(a, 5) == has_bit(b, 5));
    assert(has_bit(a, 6) == has_bit(b, 6));
    assert(has_bit(a, 7) == has_bit(b, 7));
    assert(a == b) by (bit_vector)
        requires
            has_bit(a, 0) == has_bit(b, 0),
            has_bit(a, 1) == has_bit(b, 1),
            has_bit(a, 2) == has_bit(b, 2),
            has_bit(a, 3) == has_bit(b, 3),
            has_bit(a, 4) == has_bit(b, 4),
            has_bit(a, 5) == has_bit(b, 5),
            has_bit(a, 6) == has_bit(b, 6),
            has_bit(a, 7) == has_bit(b, 7),
    ;
}

/// A subset of three entries stays one, and the entries that one or
/// both of two such subsets hold are at most three.
pub proof fn lemma_three_entries(a: u8, b: u8)
    by (bit_vector)
    requires
        a < 8,
        b < 8,
    ensures
        (a | b) < 8,
        bit_count(a ^ b) + bit_count(a & b) <= 3,
        bit_count(a ^ b) >= 0,
        bit_count(a & b) >= 0,
{
}

/// A subset of four entries stays one and holds at most four.
pub proof fn lemma_four_entries(a: u8, b: u8)
    by (bit_vector)
    requires
        a < 16,
        b < 16,
    ensures
        (a | b) < 16,
        bit_count(a | b) <= 4,
{
}

/// A subset holds between none and eight entries.
pub proof fn lemma_bit_count(a: u8)
    by (bit_vector)
    ensures
        0 <= bit_count(a) <= 8,
{
}

/// A subset of at most four entries.
pub proof fn lemma_four_bits(p: spec_fn(int) -> bool, n: nat)
    requires
        n <= 4,
    ensures
        bits_of(p, n) < 16,
{
    reveal_with_fuel(bits_of, 5);
    assert(1u8 << 0u8 == 1 && 1u8 << 1u8 == 2 && 1u8 << 2u8 == 4 && 1u8 << 3u8 == 8)
        by (bit_vector);
    assert(forall|a: u8|
        #![auto]
        a < 16 ==> (a | 1u8) < 16 && (a | 2u8) < 16 && (a | 4u8) < 16 && (a | 8u8) < 16)
        by (bit_vector);
}

/// A subset of at most three entries.
pub proof fn lemma_three_bits(p: spec_fn(int) -> bool, n: nat)
    requires
        n <= 3,
    ensures
        bits_of(p, n) < 8,
{
    reveal_with_fuel(bits_of, 4);
    assert(1u8 << 0u8 == 1 && 1u8 << 1u8 == 2 && 1u8 << 2u8 == 4) by (bit_vector);
    assert(forall|a: u8| #![auto] a < 8 ==> (a | 1u8) < 8 && (a | 2u8) < 8 && (a | 4u8) < 8)
        by (bit_vector);
}

impl DesiredMask {
    /// The whole of a list of `len` entries.
    pub fn full(len: usize) -> (r: Self)
        requires
            len <= 8,
        ensures
            r.0 == all_bits(len as nat),
    {
        let mut bits: u8 = 0;
        let mut i: usize = 0;
        let ghost p = |i: int| true;
        while i < len
            invariant
                i <= len <= 8,
                p == (|i: int| true),
                bits == bits_of(p, i as nat),
            decreases len - i,
        {
            bits = bits | (1u8 << (i as u8));
            i = i + 1;
        }
        DesiredMask(bits)
    }

    pub fn empty() -> (r: Self)
        ensures
            r.0 == 0,
    {
        DesiredMask(0)
    }

    pub fn single(position: usize) -> (r: Self)
        requires
            position < 8,
        ensures
            r.0 == 1u8 << (position as u8),
    {
        DesiredMask(1u8 << (position as u8))
    }

    /// The desired passives among `passives`.
    pub fn of(desired: &Vec<PassiveName>, passives: &Vec<PassiveName>) -> (r: Self)
        requires
            desired@.len() <= 8,
        ensures
            r.0 == bits_of(carries(passive_texts(desired@), passive_texts(passives@)), desired@.len()),
    {
        let ghost p = carries(passive_texts(desired@), passive_texts(passives@));
        let mut bits: u8 = 0;
        let mut i: usize = 0;
        while i < desired.len()
            invariant
                i <= desired@.len() <= 8,
                p == carries(passive_texts(desired@), passive_texts(passives@)),
                bits == bits_of(p, i as nat),
            decreases desired@.len() - i,
        {
            proof {
                assert(passive_texts(desired@)[i as int] == desired@[i as int]@);
            }
            if crate::model::holds_passive(passives, &desired[i]) {
                bits = bits | (1u8 << (i as u8));
            }
            i = i + 1;
        }
        DesiredMask(bits)
    }

    pub fn union(self, other: Self) -> (r: Self)
        ensures
            r.0 == self.0 | other.0,
    {
        DesiredMask(self.0 | other.0)
    }

    pub fn intersection(self, other: Self) -> (r: Self)
        ensures
            r.0 == self.0 & other.0,
    {
        DesiredMask(self.0 & other.0)
    }

    pub fn symmetric_difference(self, other: Self) -> (r: Self)
        ensures
            r.0 == self.0 ^ other.0,
    {
        DesiredMask(self.0 ^ other.0)
    }

    /// The desired passives that the subset holds.
    pub fn names(self, desired: &Vec<PassiveName>) -> (r: Vec<PassiveName>)
        requires
            desired@.len() <= 8,
        ensures
            passive_texts(r@) == picked(self.0, passive_texts(desired@)),
    {
        let mut out: Vec<PassiveName> = Vec::new();
        let ghost texts = passive_texts(desired@);
        let mut i: usize = 0;
        proof {
            assert(passive_texts(out@) =~= picked(self.0, texts.take(0)));
        }
        while i < desired.len()
            invariant
                i <= desired@.len() <= 8,
                texts == passive_texts(desired@),
                passive_texts(out@) == picked(self.0, texts.take(i as int)),
            decreases desired@.len() - i,
        {
            proof {
                assert(texts.take(i + 1).drop_last() =~= texts.take(i as int));
            }
            if (self.0 >> (i as u8)) & 1 == 1 {
                let ghost before = passive_texts(out@);
                out.push(desired[i].clone());
                proof {
                    assert(passive_texts(out@) =~= before.push(desired@[i as int]@));
                }
            }
            i = i + 1;
        }
        proof {
            assert(texts.take(i as int) =~= texts);
        }
        out
    }

    pub fn count(self) -> (r: usize)
        ensures
            r == bit_count(self.0),
            r <= 8,
    {
        let b: u8 = self.0;
        proof {
            lemma_bit_count(b);
            assert(forall|x: u8| #![auto] (x & 1u8) <= 1) by (bit_vector);
        }
        ((b & 1) as usize) + (((b >> 1u8) & 1) as usize) + (((b >> 2u8) & 1) as usize) + (((b
            >> 3u8) & 1) as usize) + (((b >> 4u8) & 1) as usize) + (((b >> 5u8) & 1) as usize) + (((
        b >> 6u8) & 1) as usize) + (((b >> 7u8) & 1) as usize)
    }
}

/// Entry `i` of the wanted passives is among those given.
pub open spec fn carries(desired: Seq<Seq<char>>, given: Seq<Seq<char>>) -> spec_fn(int) -> bool {
    |i: int| given.contains(desired[i])
}

} // verus!
