use vstd::arithmetic::power2::{lemma_pow2_adds, lemma_pow2_pos, pow2};
use vstd::prelude::*;

use crate::error::GifError;

verus! {

/// Reads variable-width codes, least significant bit first, from bytes pushed
/// one at a time. The bits not yet consumed are held as the number `buffer`
/// with `count` significant bits; `scale` is `2^count`.
pub struct BitReader {
    buffer: u32,
    count: u32,
    scale: u32,
}

/// The largest number of bits a reader may hold before a byte is pushed.
pub const MAX_BITS_BEFORE_PUSH: u32 = 16;

impl BitReader {
    pub closed spec fn wf(&self) -> bool {
        &&& self.count <= 24
        &&& self.scale as nat == pow2(self.count as nat)
        &&& self.buffer < self.scale
    }

    /// The buffered bits, as a number whose bit `i` is the `i`-th bit to be read.
    pub closed spec fn value(&self) -> nat {
        self.buffer as nat
    }

    /// How many bits are buffered.
    pub closed spec fn bit_count(&self) -> nat {
        self.count as nat
    }

    pub fn new() -> (r: BitReader)
        ensures
            r.wf(),
            r.value() == 0,
            r.bit_count() == 0,
    {
        proof {
            vstd::arithmetic::power2::lemma2_to64();
        }
        BitReader { buffer: 0, count: 0, scale: 1 }
    }

    /// Appends the eight bits of `byte` after the bits already buffered.
    pub fn push_byte(&mut self, byte: u8)
        requires
            old(self).wf(),
            old(self).bit_count() <= MAX_BITS_BEFORE_PUSH,
        ensures
            final(self).wf(),
            final(self).bit_count() == old(self).bit_count() + 8,
            final(self).value() == old(self).value() + byte as nat * pow2(old(self).bit_count()),
    {
        proof {
            vstd::arithmetic::power2::lemma2_to64();
            lemma_pow2_adds(self.count as nat, 8);
            lemma_pow2_mono(self.count as nat, 16);
        }
        let b: u32 = byte as u32;
        let s: u32 = self.scale;
        let v: u32 = self.buffer;
        assert(v + b * s < 256 * s) by (nonlinear_arith)
            requires
                v < s,
                b < 256,
        ;
        assert(256 * s <= 16777216) by (nonlinear_arith)
            requires
                s <= 65536,
        ;
        self.buffer = v + b * s;
        self.scale = s * 256;
        self.count = self.count + 8;
    }

    /// Whether at least `width` bits are buffered.
    pub fn has_bits(&self, width: u32) -> (r: bool)
        ensures
            r == (self.bit_count() >= width as nat),
    {
        self.count >= width
    }

    /// Takes the next `width` bits as a code, lowest bit first.
    pub fn read_code(&mut self, width: u32) -> (r: Result<u16, GifError>)
        requires
            old(self).wf(),
            1 <= width <= 12,
        ensures
            final(self).wf(),
            old(self).bit_count() < width ==> r == Err::<u16, GifError>(GifError::InsufficientBits)
                && *final(self) == *old(self),
            old(self).bit_count() >= width ==> {
                &&& r is Ok
                &&& r->Ok_0 as nat == old(self).value() % pow2(width as nat)
                &&& final(self).value() == old(self).value() / pow2(width as nat)
                &&& final(self).bit_count() == old(self).bit_count() - width
            },
    {
        if self.count < width {
            return Err(GifError::InsufficientBits);
        }
        let d: u32 = pow2_u32(width);
        proof {
            let rest: nat = (self.count - width) as nat;
            lemma_pow2_adds(rest, width as nat);
            lemma_pow2_pos(rest);
            lemma_pow2_pos(width as nat);
            let p = pow2(rest);
            let q = pow2(width as nat);
            assert((p * q) / q == p) by (nonlinear_arith)
                requires
                    q > 0,
            ;
            assert(self.buffer as nat / q < p) by (nonlinear_arith)
                requires
                    self.buffer < p * q,
                    q > 0,
            ;
        }
        let code: u32 = self.buffer % d;
        self.buffer = self.buffer / d;
        self.scale = self.scale / d;
        self.count = self.count - width;
        assert(code < 4096) by {
            lemma_pow2_mono(width as nat, 12);
            vstd::arithmetic::power2::lemma2_to64();
        }
        Ok(code as u16)
    }
}

pub proof fn lemma_pow2_mono(a: nat, b: nat)
    requires
        a <= b,
    ensures
        pow2(a) <= pow2(b),
{
    if a < b {
        vstd::arithmetic::power2::lemma_pow2_strictly_increases(a, b);
    }
}

/// `2^n` for a small `n`.
pub fn pow2_u32(n: u32) -> (r: u32)
    requires
        n <= 24,
    ensures
        r as nat == pow2(n as nat),
{
    let mut r: u32 = 1;
    let mut i: u32 = 0;
    proof {
        vstd::arithmetic::power2::lemma2_to64();
    }
    while i < n
        invariant
            i <= n <= 24,
            r as nat == pow2(i as nat),
        decreases n - i,
    {
        proof {
            vstd::arithmetic::power2::lemma_pow2_unfold((i + 1) as nat);
            lemma_pow2_mono((i + 1) as nat, 24);
            vstd::arithmetic::power2::lemma2_to64();
        }
        r = r * 2;
        i = i + 1;
    }
    r
}

} // verus!
