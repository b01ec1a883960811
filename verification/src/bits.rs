//! A reader of bit fields, most significant bit first.
use vstd::prelude::*;
use vstd::arithmetic::div_mod::{lemma_add_mod_noop, lemma_mul_mod_noop_right, lemma_mod_bound, lemma_small_mod};
use vstd::arithmetic::power2::{pow2, lemma_pow2_unfold, lemma2_to64};

verus! {

/// The bit at position `p` of `data`, counting from the most significant bit
/// of the first byte.
pub open spec fn bit_at(data: Seq<u8>, p: int) -> nat {
    ((data[p / 8] >> ((7 - p % 8) as u8)) & 1u8) as nat
}

/// The unsigned number written by the `n` bits of `data` that start at bit
/// position `pos`, the first of them being the most significant.
pub open spec fn bits_value(data: Seq<u8>, pos: int, n: nat) -> nat
    decreases n,
{
    if n == 0 {
        0
    } else {
        2 * bits_value(data, pos, (n - 1) as nat) + bit_at(data, pos + n - 1)
    }
}

/// What a read of `n` bits at `pos` gives: their value, or 0 where they run
/// past the end of `data`.
pub open spec fn read_value(data: Seq<u8>, pos: int, n: int) -> int {
    if pos + n > data.len() * 8 {
        0
    } else {
        bits_value(data, pos, n as nat) as int
    }
}

/// `n` bits hold a number below 2 to the `n`.
pub proof fn lemma_bits_value_bound(data: Seq<u8>, pos: int, n: nat)
    ensures
        bits_value(data, pos, n) < pow2(n),
    decreases n,
{
    if n == 0 {
        lemma2_to64();
    } else {
        lemma_bits_value_bound(data, pos, (n - 1) as nat);
        lemma_pow2_unfold(n);
        let b = data[(pos + n - 1) / 8];
        let sh = (7 - (pos + n - 1) % 8) as u8;
        assert((b >> sh) & 1u8 <= 1u8) by (bit_vector);
        assert(bit_at(data, pos + n - 1) <= 1);
    }
}

/// A cursor over a byte buffer that reads bit fields.
pub struct Bits<'a> {
    pub data: &'a [u8],
    pub position: usize,
}

impl<'a> Bits<'a> {
    /// The number of bits in the buffer.
    pub open spec fn spec_limit(&self) -> int {
        (self.data@.len() * 8) as int
    }

    /// A reader of `data` at bit `position`.
    pub fn new_with_pos(data: &'a [u8], position: usize) -> (r: Self)
        ensures
            r.data@ == data@,
            r.position == position,
    {
        Bits { data, position }
    }

    /// A reader of `data` at its first bit.
    pub fn new(data: &'a [u8]) -> (r: Self)
        ensures
            r.data@ == data@,
            r.position == 0,
    {
        Bits::new_with_pos(data, 0)
    }

    /// The number of bits in the buffer.
    pub fn limit(&self) -> (r: usize)
        requires
            self.data@.len() * 8 <= usize::MAX,
        ensures
            r == self.spec_limit(),
    {
        self.data.len() * 8
    }

    /// Whether the reader has moved past the end of the buffer.
    pub fn overran(&self) -> (r: bool)
        requires
            self.data@.len() * 8 <= usize::MAX,
        ensures
            r == (self.position > self.spec_limit()),
    {
        self.position > self.limit()
    }

    /// Reads the next `amount` bits as a number, first bit most significant,
    /// and moves past them. Where they run past the end of the buffer the
    /// position still moves and the result is 0; of more than 32 bits the
    /// low 32 are kept.
    pub fn get_bits(&mut self, amount: u32) -> (r: u32)
        requires
            old(self).position + amount <= usize::MAX,
            old(self).data@.len() * 8 <= usize::MAX,
        ensures
            final(self).data@ == old(self).data@,
            final(self).position == old(self).position + amount,
            r == (if old(self).position + amount > old(self).spec_limit() {
                0
            } else {
                bits_value(old(self).data@, old(self).position as int, amount as nat) % 0x1_0000_0000
            }),
            amount <= 32 ==> r == read_value(old(self).data@, old(self).position as int, amount as int),
    {
        proof {
            lemma_bits_value_bound(self.data@, self.position as int, amount as nat);
            if amount <= 32 {
                lemma2_to64();
                if amount < 32 {
                    vstd::arithmetic::power2::lemma_pow2_strictly_increases(amount as nat, 32);
                }
                lemma_small_mod(bits_value(self.data@, self.position as int, amount as nat), 0x1_0000_0000);
            }
        }
        let start = self.position;
        self.position += amount as usize;
        if self.position > self.limit() {
            return 0;
        }
        let mut v: u32 = 0;
        let mut k: usize = 0;
        while k < amount as usize
            invariant
                k <= amount,
                start + amount <= self.spec_limit(),
                self.data@.len() * 8 <= usize::MAX,
                v == bits_value(self.data@, start as int, k as nat) % 0x1_0000_0000,
            decreases amount - k,
        {
            let p = start + k;
            let byte = self.data[p / 8];
            let sh = (7 - p % 8) as u8;
            let b = (byte >> sh) & 1u8;
            let ghost x = bits_value(self.data@, start as int, k as nat);
            proof {
                assert(b <= 1u8) by (bit_vector)
                    requires b == (byte >> sh) & 1u8;
                assert(((v << 1u32) | (b as u32)) == (2 * v + b) % 0x1_0000_0000) by (bit_vector)
                    requires b <= 1u8;
                lemma_mul_mod_noop_right(2, x as int, 0x1_0000_0000);
                lemma_add_mod_noop((2 * x) as int, b as int, 0x1_0000_0000);
                lemma_mod_bound(b as int, 0x1_0000_0000);
                lemma_add_mod_noop((2 * (x % 0x1_0000_0000)) as int, b as int, 0x1_0000_0000);
                assert(bit_at(self.data@, start + k) == b);
            }
            v = (v << 1u32) | (b as u32);
            k += 1;
        }
        v
    }
}


/// Reading `n` bits and then `m` more reads the `n + m` bits: their value
/// is the first read's shifted left by `m`, plus the second's.
pub proof fn lemma_bits_value_split(data: Seq<u8>, pos: int, n: nat, m: nat)
    ensures
        bits_value(data, pos, n + m) == bits_value(data, pos, n) * pow2(m) + bits_value(data, pos + n, m),
    decreases m,
{
    if m == 0 {
        lemma2_to64();
    } else {
        lemma_bits_value_split(data, pos, n, (m - 1) as nat);
        lemma_pow2_unfold(m);
        let a = bits_value(data, pos, n);
        let p = pow2((m - 1) as nat);
        assert(2 * (a * p) == a * (2 * p)) by (nonlinear_arith);
        assert(bits_value(data, pos, n + m) == 2 * bits_value(data, pos, (n + m - 1) as nat) + bit_at(data, pos + n + m - 1));
        assert(bits_value(data, pos + n, m) == 2 * bits_value(data, pos + n, (m - 1) as nat) + bit_at(data, pos + n + m - 1));
    }
}


/// A read of `n` bits gives less than 2 to the `n`.
pub proof fn lemma_read_value_bound(data: Seq<u8>, pos: int, n: nat)
    ensures
        0 <= read_value(data, pos, n as int) < pow2(n),
{
    lemma_bits_value_bound(data, pos, n);
    vstd::arithmetic::power2::lemma_pow2_pos(n);
}

} // verus!
