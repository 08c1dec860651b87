//! The SHA-1 digest engine: a streaming state of five 32-bit accumulators
//! that consumes 64-byte blocks, pads the final chunk, and emits the digest
//! as a 40-character lowercase hex string.
//!
//! The whole algorithm is stated as spec functions over byte sequences
//! (`sha1_hex` is the one-line summary: pad, then compress block by block,
//! then print the accumulators), and the executable engine is proved to
//! compute exactly that.

use vstd::prelude::*;
use vstd::string::StringExecFns;

verus! {

/// The five 32-bit running accumulators of one digest stream.
#[derive(Clone, Copy, Debug)]
pub struct Accumulators {
    pub a: u32,
    pub b: u32,
    pub c: u32,
    pub d: u32,
    pub e: u32,
}

/// Addition modulo 2^32, the only addition the algorithm uses.
pub open spec fn w_add(x: u32, y: u32) -> u32 {
    if x + y > u32::MAX {
        (x + y - 0x1_0000_0000) as u32
    } else {
        (x + y) as u32
    }
}

/// Left rotation of a 32-bit word by `n` places, `0 < n < 32`.
pub open spec fn rotl(x: u32, n: u32) -> u32
    recommends
        0 < n < 32,
{
    (x << n) | (x >> ((32 - n) as u32))
}

/// The fixed initial accumulator values of every stream.
pub open spec fn init_accs() -> Accumulators {
    Accumulators { a: 0x67452301, b: 0xEFCDAB89, c: 0x98BADCFE, d: 0x10325476, e: 0xC3D2E1F0 }
}

/// A big-endian 32-bit word read from four bytes.
pub open spec fn be_word(b0: u8, b1: u8, b2: u8, b3: u8) -> u32 {
    ((b0 as u32) << 24) | ((b1 as u32) << 16) | ((b2 as u32) << 8) | (b3 as u32)
}

/// Word `i` of the 80-word schedule of one 64-byte block: the first 16 are
/// read big-endian from the block, the rest are a rotated xor of four
/// earlier words.
pub open spec fn sched_word(block: Seq<u8>, i: int) -> u32
    recommends
        block.len() == 64,
        0 <= i < 80,
    decreases i,
{
    if i < 16 {
        be_word(block[4 * i], block[4 * i + 1], block[4 * i + 2], block[4 * i + 3])
    } else {
        rotl(
            sched_word(block, i - 3) ^ sched_word(block, i - 8) ^ sched_word(block, i - 14)
                ^ sched_word(block, i - 16),
            1,
        )
    }
}

/// The full 80-word schedule of one block.
pub open spec fn sched(block: Seq<u8>) -> Seq<u32>
    recommends
        block.len() == 64,
{
    Seq::new(80, |i: int| sched_word(block, i))
}

/// The boolean mixing function of step `t` (one per stage of 20 steps).
pub open spec fn mix_f(t: int, b: u32, c: u32, d: u32) -> u32
    recommends
        0 <= t < 80,
{
    if t < 20 {
        (b & c) | ((!b) & d)
    } else if t < 40 {
        b ^ c ^ d
    } else if t < 60 {
        (b & c) | (b & d) | (c & d)
    } else {
        b ^ c ^ d
    }
}

/// The additive constant of step `t`.
pub open spec fn mix_k(t: int) -> u32
    recommends
        0 <= t < 80,
{
    if t < 20 {
        0x5A827999
    } else if t < 40 {
        0x6ED9EBA1
    } else if t < 60 {
        0x8F1BBCDC
    } else {
        0xCA62C1D6
    }
}

/// One mixing step: the five-register rotate pattern of the standard.
pub open spec fn step(s: Accumulators, w: u32, t: int) -> Accumulators
    recommends
        0 <= t < 80,
{
    let tmp = w_add(w_add(w_add(w_add(rotl(s.a, 5), mix_f(t, s.b, s.c, s.d)), s.e), mix_k(t)), w);
    Accumulators { a: tmp, b: s.a, c: rotl(s.b, 30), d: s.c, e: s.d }
}

/// The first `n` mixing steps applied to `s`, drawing word `t` of `ws`
/// at step `t`.
pub open spec fn steps(s: Accumulators, ws: Seq<u32>, n: int) -> Accumulators
    recommends
        ws.len() == 80,
        0 <= n <= 80,
    decreases n,
{
    if n <= 0 {
        s
    } else {
        step(steps(s, ws, n - 1), ws[n - 1], n - 1)
    }
}

/// Wrapping addition of a round's five outputs onto the running
/// accumulators — never an overwrite, which is what carries the digest
/// across many blocks.
pub open spec fn add5(h: Accumulators, r: Accumulators) -> Accumulators {
    Accumulators {
        a: w_add(h.a, r.a),
        b: w_add(h.b, r.b),
        c: w_add(h.c, r.c),
        d: w_add(h.d, r.d),
        e: w_add(h.e, r.e),
    }
}

/// One compression round: 80 steps over the block's schedule, folded back
/// into the accumulators by wrapping addition.
pub open spec fn compress_block(h: Accumulators, block: Seq<u8>) -> Accumulators
    recommends
        block.len() == 64,
{
    add5(h, steps(h, sched(block), 80))
}

/// The accumulators after compressing a block-aligned byte sequence,
/// one 64-byte block at a time, in order.
pub open spec fn compress_seq(h: Accumulators, s: Seq<u8>) -> Accumulators
    recommends
        s.len() % 64 == 0,
    decreases s.len(),
{
    if s.len() < 64 {
        h
    } else {
        compress_block(compress_seq(h, s.take(s.len() - 64)), s.skip(s.len() - 64))
    }
}

/// How many zero bytes padding inserts after the 0x80 byte so that the
/// padded length lands on 56 modulo 64.
pub open spec fn pad_zeros(l: nat) -> nat {
    ((119 - (l % 64)) % 64) as nat
}

/// The eight bytes of a 64-bit word, big-endian.
pub open spec fn be64_bytes(v: u64) -> Seq<u8> {
    seq![
        ((v >> 56) & 0xff) as u8,
        ((v >> 48) & 0xff) as u8,
        ((v >> 40) & 0xff) as u8,
        ((v >> 32) & 0xff) as u8,
        ((v >> 24) & 0xff) as u8,
        ((v >> 16) & 0xff) as u8,
        ((v >> 8) & 0xff) as u8,
        (v & 0xff) as u8,
    ]
}

/// The trailing length field: the input bit count modulo 2^64, big-endian.
pub open spec fn len_bytes(l: nat) -> Seq<u8> {
    be64_bytes((((l * 8) % 0x1_0000_0000_0000_0000) as u64))
}

/// The padded form of a message: a 0x80 byte, zeros to 56 modulo 64, then
/// the 64-bit bit length. Always a whole number of 64-byte blocks.
pub open spec fn pad(s: Seq<u8>) -> Seq<u8> {
    s + seq![0x80u8] + Seq::new(pad_zeros(s.len()), |i: int| 0u8) + len_bytes(s.len())
}

/// Prepending a block-aligned prefix does not change what padding a tail
/// asks for: the zero count depends on the length modulo 64 alone.
proof fn lemma_mod_64_of_concat(p: nat, c: nat)
    requires
        p % 64 == 0,
    ensures
        (p + c) % 64 == c % 64,
        pad_zeros(p + c) == pad_zeros(c),
{
    vstd::arithmetic::div_mod::lemma_add_mod_noop(p as int, c as int, 64);
    vstd::arithmetic::div_mod::lemma_mod_twice(c as int, 64);
}

/// A chunk of any length, once the marker byte, the zeros and the eight
/// length bytes are appended, is a whole number of 64-byte blocks.
proof fn lemma_padded_chunk_aligned(c: nat)
    ensures
        (c + 1 + pad_zeros(c) + 8) % 64 == 0,
{
    let r = c % 64;
    vstd::arithmetic::div_mod::lemma_mod_bound(c as int, 64);
    vstd::arithmetic::div_mod::lemma_fundamental_div_mod(c as int, 64);
    if r <= 55 {
        vstd::arithmetic::div_mod::lemma_mod_add_multiples_vanish(55 - r, 64);
        vstd::arithmetic::div_mod::lemma_small_mod((55 - r) as nat, 64);
        assert(pad_zeros(c) == 55 - r);
        vstd::arithmetic::div_mod::lemma_mod_multiples_basic(c as int / 64 + 1, 64);
        assert(c + 1 + (55 - r) + 8 == 64 * (c as int / 64 + 1));
    } else {
        vstd::arithmetic::div_mod::lemma_small_mod((119 - r) as nat, 64);
        assert(pad_zeros(c) == 119 - r);
        vstd::arithmetic::div_mod::lemma_mod_multiples_basic(c as int / 64 + 2, 64);
        assert(c + 1 + (119 - r) + 8 == 64 * (c as int / 64 + 2));
    }
}

/// The five accumulators of the finished digest of `s`.
pub open spec fn sha1_accs(s: Seq<u8>) -> Accumulators {
    compress_seq(init_accs(), pad(s))
}

/// One lowercase hex digit.
pub open spec fn hex_char(n: u8) -> char
    recommends
        n < 16,
{
    if n == 0 {
        '0'
    } else if n == 1 {
        '1'
    } else if n == 2 {
        '2'
    } else if n == 3 {
        '3'
    } else if n == 4 {
        '4'
    } else if n == 5 {
        '5'
    } else if n == 6 {
        '6'
    } else if n == 7 {
        '7'
    } else if n == 8 {
        '8'
    } else if n == 9 {
        '9'
    } else if n == 10 {
        'a'
    } else if n == 11 {
        'b'
    } else if n == 12 {
        'c'
    } else if n == 13 {
        'd'
    } else if n == 14 {
        'e'
    } else {
        'f'
    }
}

/// A 32-bit word as eight lowercase hex digits, most significant first.
pub open spec fn hex32(v: u32) -> Seq<char> {
    seq![
        hex_char(((v >> 28) & 0xf) as u8),
        hex_char(((v >> 24) & 0xf) as u8),
        hex_char(((v >> 20) & 0xf) as u8),
        hex_char(((v >> 16) & 0xf) as u8),
        hex_char(((v >> 12) & 0xf) as u8),
        hex_char(((v >> 8) & 0xf) as u8),
        hex_char(((v >> 4) & 0xf) as u8),
        hex_char((v & 0xf) as u8),
    ]
}

/// The digest string of five accumulators: five 8-digit fields in
/// accumulator order, 40 characters in all.
pub open spec fn accs_hex(h: Accumulators) -> Seq<char> {
    hex32(h.a) + hex32(h.b) + hex32(h.c) + hex32(h.d) + hex32(h.e)
}

/// The 40-character lowercase hex digest of a byte string.
pub open spec fn sha1_hex(s: Seq<u8>) -> Seq<char> {
    accs_hex(sha1_accs(s))
}

/// The accumulators after feeding a stream chunk by chunk, as a sequence
/// of `process_chunk` calls does.
pub open spec fn absorb_all(h: Accumulators, parts: Seq<Seq<u8>>) -> Accumulators
    decreases parts.len(),
{
    if parts.len() == 0 {
        h
    } else {
        absorb_all(compress_seq(h, parts.first()), parts.drop_first())
    }
}

/// Block-aligned compression composes over concatenation: compressing
/// `a + b` is compressing `a` and then `b`.
pub proof fn lemma_compress_seq_append(h: Accumulators, a: Seq<u8>, b: Seq<u8>)
    requires
        a.len() % 64 == 0,
        b.len() % 64 == 0,
    ensures
        compress_seq(h, a + b) == compress_seq(compress_seq(h, a), b),
    decreases b.len(),
{
    if b.len() == 0 {
        assert(a + b =~= a);
    } else {
        if b.len() < 64 {
            vstd::arithmetic::div_mod::lemma_small_mod(b.len(), 64);
        }
        assert(b.len() >= 64);
        let b1 = b.take(b.len() - 64);
        let blk = b.skip(b.len() - 64);
        vstd::arithmetic::div_mod::lemma_mod_sub_multiples_vanish(b.len() as int, 64);
        assert(b1.len() % 64 == 0);
        lemma_compress_seq_append(h, a, b1);
        assert((a + b).take((a + b).len() - 64) =~= a + b1);
        assert((a + b).skip((a + b).len() - 64) =~= blk);
    }
}

/// The block-aligned concatenation of block-aligned chunks.
proof fn lemma_flatten_aligned(parts: Seq<Seq<u8>>)
    requires
        forall|i: int| 0 <= i < parts.len() ==> (#[trigger] parts[i]).len() % 64 == 0,
    ensures
        parts.flatten().len() % 64 == 0,
    decreases parts.len(),
{
    if parts.len() == 0 {
    } else {
        let rest = parts.drop_first();
        assert(parts[0].len() % 64 == 0);
        assert forall|i: int| 0 <= i < rest.len() implies (#[trigger] rest[i]).len() % 64
            == 0 by {
            assert(rest[i] == parts[i + 1]);
        }
        lemma_flatten_aligned(rest);
        vstd::arithmetic::div_mod::lemma_add_mod_noop(
            parts.first().len() as int,
            rest.flatten().len() as int,
            64,
        );
    }
}

/// Chunking invariance: feeding a stream as any sequence of block-aligned
/// chunks leaves the accumulators exactly where feeding the concatenated
/// bytes as one chunk would; the digest depends on the bytes alone, not on
/// how they were split.
pub proof fn lemma_chunking_invariance(h: Accumulators, parts: Seq<Seq<u8>>)
    requires
        forall|i: int| 0 <= i < parts.len() ==> (#[trigger] parts[i]).len() % 64 == 0,
    ensures
        absorb_all(h, parts) == compress_seq(h, parts.flatten()),
    decreases parts.len(),
{
    if parts.len() == 0 {
        assert(parts.flatten() =~= Seq::<u8>::empty());
    } else {
        let p0 = parts.first();
        let rest = parts.drop_first();
        assert(p0.len() % 64 == 0) by {
            assert(p0 == parts[0]);
        }
        assert forall|i: int| 0 <= i < rest.len() implies (#[trigger] rest[i]).len() % 64
            == 0 by {
            assert(rest[i] == parts[i + 1]);
        }
        lemma_chunking_invariance(compress_seq(h, p0), rest);
        lemma_flatten_aligned(rest);
        lemma_compress_seq_append(h, p0, rest.flatten());
        assert(parts.flatten() == p0 + rest.flatten());
    }
}

/// The padding boundary law: the padded message is always a whole number
/// of blocks and always grows; a message that ends 56 modulo 64 takes two
/// trailing blocks (the length field no longer fits after the marker
/// byte), and a message of exactly full blocks still takes one whole extra
/// block, never zero.
pub proof fn lemma_padding_blocks(s: Seq<u8>)
    ensures
        pad(s).len() % 64 == 0,
        pad(s).len() > s.len(),
        s.len() % 64 == 56 ==> pad(s).len() == s.len() + 72,
        s.len() % 64 == 0 ==> pad(s).len() == s.len() + 64,
{
    assert(pad(s).len() == s.len() + 1 + pad_zeros(s.len()) + 8);
    lemma_padded_chunk_aligned(s.len());
}

/// The streaming digest engine: five accumulators, a 64-bit running byte
/// count, and (in the ghost world) the block bytes consumed so far.
pub struct SHA1 {
    h0: u32,
    h1: u32,
    h2: u32,
    h3: u32,
    h4: u32,
    count: u64,
    consumed: Ghost<Seq<u8>>,
}

impl SHA1 {
    /// The bytes this engine has compressed so far, always a whole number
    /// of blocks; after finalization this includes the padding.
    pub closed spec fn consumed(self) -> Seq<u8> {
        self.consumed@
    }

    /// The current accumulator values.
    pub closed spec fn accs(self) -> Accumulators {
        Accumulators { a: self.h0, b: self.h1, c: self.h2, d: self.h3, e: self.h4 }
    }

    /// The running byte count, kept modulo 2^64 as the length field asks.
    pub closed spec fn count(self) -> u64 {
        self.count
    }

    /// A live engine: block-aligned history, accumulators equal to the
    /// compression of that history, and a faithful byte count.
    pub open spec fn wf(self) -> bool {
        self.consumed().len() % 64 == 0 && self.accs() == compress_seq(
            init_accs(),
            self.consumed(),
        ) && self.count() == self.consumed().len() % 0x1_0000_0000_0000_0000
    }

    /// Left rotation of a 32-bit word, computed with two shifts.
    fn rotate_left(x: u32, n: u32) -> (r: u32)
        requires
            0 < n < 32,
        ensures
            r == rotl(x, n),
    {
        (x << n) | (x >> (32 - n))
    }

    /// The 80-word schedule of the 64-byte block of `chunk` that starts at
    /// `start`: 16 words read big-endian, 64 more by rotated xor.
    pub fn prepare_80_words(&self, chunk: &[u8], start: usize) -> (words: Vec<u32>)
        requires
            start + 64 <= chunk@.len(),
        ensures
            words@ == sched(chunk@.subrange(start as int, start as int + 64)),
    {
        let ghost block = chunk@.subrange(start as int, start as int + 64);
        let clen = chunk.len();
        let mut words: Vec<u32> = Vec::new();
        let mut i: usize = 0;
        while i < 16
            invariant
                i <= 16,
                clen == chunk@.len(),
                start + 64 <= chunk@.len(),
                block == chunk@.subrange(start as int, start as int + 64),
                words@.len() == i,
                forall|j: int| 0 <= j < i ==> words@[j] == sched_word(block, j),
            decreases 16 - i,
        {
            let t = start + i * 4;
            let w = ((chunk[t] as u32) << 24) | ((chunk[t + 1] as u32) << 16) | ((chunk[t + 2]
                as u32) << 8) | (chunk[t + 3] as u32);
            proof {
                assert(block[4 * i as int] == chunk@[start + 4 * i]);
                assert(block[4 * i as int + 1] == chunk@[start + 4 * i + 1]);
                assert(block[4 * i as int + 2] == chunk@[start + 4 * i + 2]);
                assert(block[4 * i as int + 3] == chunk@[start + 4 * i + 3]);
            }
            words.push(w);
            i = i + 1;
        }
        while i < 80
            invariant
                16 <= i <= 80,
                words@.len() == i,
                forall|j: int| 0 <= j < i ==> words@[j] == sched_word(block, j),
            decreases 80 - i,
        {
            let w = Self::rotate_left(
                words[i - 3] ^ words[i - 8] ^ words[i - 14] ^ words[i - 16],
                1,
            );
            proof {
                assert(sched_word(block, i as int) == rotl(
                    sched_word(block, i as int - 3) ^ sched_word(block, i as int - 8) ^ sched_word(
                        block,
                        i as int - 14,
                    ) ^ sched_word(block, i as int - 16),
                    1,
                ));
            }
            words.push(w);
            i = i + 1;
        }
        proof {
            assert(words@ =~= sched(block));
        }
        words
    }

    /// The compression round: the 80 mixing steps of the standard, in four
    /// stages of 20, computed directly over the schedule and the current
    /// accumulators.
    pub fn compute_word_buffers(&self, words: &Vec<u32>) -> (buffers: Accumulators)
        requires
            words@.len() == 80,
        ensures
            buffers == steps(self.accs(), words@, 80),
    {
        let mut a = self.h0;
        let mut b = self.h1;
        let mut c = self.h2;
        let mut d = self.h3;
        let mut e = self.h4;
        let mut t: usize = 0;
        while t < 80
            invariant
                t <= 80,
                words@.len() == 80,
                (Accumulators { a, b, c, d, e }) == steps(self.accs(), words@, t as int),
            decreases 80 - t,
        {
            let f: u32 = if t < 20 {
                (b & c) | ((!b) & d)
            } else if t < 40 {
                b ^ c ^ d
            } else if t < 60 {
                (b & c) | (b & d) | (c & d)
            } else {
                b ^ c ^ d
            };
            let k: u32 = if t < 20 {
                0x5A827999
            } else if t < 40 {
                0x6ED9EBA1
            } else if t < 60 {
                0x8F1BBCDC
            } else {
                0xCA62C1D6
            };
            let w = words[t];
            let tmp = Self::rotate_left(a, 5).wrapping_add(f).wrapping_add(e).wrapping_add(
                k,
            ).wrapping_add(w);
            proof {
                assert(f == mix_f(t as int, b, c, d));
                assert(k == mix_k(t as int));
                assert(tmp == w_add(w_add(w_add(w_add(rotl(a, 5), f), e), k), w));
                assert(steps(self.accs(), words@, t as int + 1) == step(
                    steps(self.accs(), words@, t as int),
                    words@[t as int],
                    t as int,
                ));
            }
            e = d;
            d = c;
            c = Self::rotate_left(b, 30);
            b = a;
            a = tmp;
            t = t + 1;
        }
        Accumulators { a, b, c, d, e }
    }

    /// Fold a finished round back into the running accumulators by
    /// wrapping addition.
    pub fn update_h_values(&mut self, buffers: Accumulators)
        ensures
            final(self).accs() == add5(old(self).accs(), buffers),
            final(self).consumed() == old(self).consumed(),
            final(self).count() == old(self).count(),
    {
        self.h0 = self.h0.wrapping_add(buffers.a);
        self.h1 = self.h1.wrapping_add(buffers.b);
        self.h2 = self.h2.wrapping_add(buffers.c);
        self.h3 = self.h3.wrapping_add(buffers.d);
        self.h4 = self.h4.wrapping_add(buffers.e);
    }

    /// Consume a block-aligned chunk of the stream: split it into
    /// consecutive 64-byte blocks and feed each through one compression
    /// round, in order, without padding.
    pub fn process_chunk(&mut self, chunk: &[u8])
        requires
            old(self).wf(),
            chunk@.len() % 64 == 0,
        ensures
            final(self).wf(),
            final(self).consumed() == old(self).consumed() + chunk@,
    {
        let n = chunk.len();
        let mut i: usize = 0;
        while i < n
            invariant
                n == chunk@.len(),
                n % 64 == 0,
                i % 64 == 0,
                i <= n,
                self.count() == old(self).count(),
                self.consumed() == old(self).consumed() + chunk@.take(i as int),
                self.consumed().len() % 64 == 0,
                self.accs() == compress_seq(init_accs(), self.consumed()),
            decreases n - i,
        {
            proof {
                vstd::arithmetic::div_mod::lemma_sub_mod_noop(n as int, i as int, 64);
                if n - i < 64 {
                    vstd::arithmetic::div_mod::lemma_small_mod((n - i) as nat, 64);
                }
                assert(i + 64 <= n);
            }
            let ghost pre = self.consumed();
            let ghost block = chunk@.subrange(i as int, i as int + 64);
            let words = self.prepare_80_words(chunk, i);
            let buffers = self.compute_word_buffers(&words);
            self.update_h_values(buffers);
            self.consumed = Ghost(self.consumed@ + block);
            proof {
                assert((pre + block).take(pre.len() as int) =~= pre);
                assert((pre + block).skip(pre.len() as int) =~= block);
                assert(compress_seq(init_accs(), pre + block) == compress_block(
                    compress_seq(init_accs(), pre),
                    block,
                ));
                assert(old(self).consumed() + chunk@.take(i as int + 64) =~= pre + block);
            }
            i = i + 64;
        }
        proof {
            assert(i == n);
            assert(chunk@.take(n as int) =~= chunk@);
        }
        let len64: u64 = n as u64;
        self.count = self.count.wrapping_add(len64);
        proof {
            let m = 0x1_0000_0000_0000_0000int;
            vstd::arithmetic::div_mod::lemma_add_mod_noop(
                old(self).consumed().len() as int,
                n as int,
                m,
            );
            vstd::arithmetic::div_mod::lemma_mod_bound(n as int, m);
            vstd::arithmetic::div_mod::lemma_small_mod(n as nat, m as nat);
        }
    }

    /// Append the 0x80 marker byte and then zero bytes until the chunk
    /// length lands on 56 modulo 64.
    pub fn append_padding(&self, chunk: &mut Vec<u8>)
        ensures
            final(chunk)@ == old(chunk)@ + seq![0x80u8] + Seq::new(
                pad_zeros(old(chunk)@.len()),
                |i: int| 0u8,
            ),
    {
        let z: usize = (119 - (chunk.len() % 64)) % 64;
        chunk.push(128);
        let mut i: usize = 0;
        while i < z
            invariant
                i <= z,
                z == pad_zeros(old(chunk)@.len()),
                chunk@ == old(chunk)@ + seq![0x80u8] + Seq::new(i as nat, |j: int| 0u8),
            decreases z - i,
        {
            chunk.push(0);
            proof {
                assert(Seq::new(i as nat, |j: int| 0u8).push(0u8) =~= Seq::new(
                    i as nat + 1,
                    |j: int| 0u8,
                ));
                assert(chunk@ =~= old(chunk)@ + seq![0x80u8] + Seq::new(
                    i as nat + 1,
                    |j: int| 0u8,
                ));
            }
            i = i + 1;
        }
    }

    /// Append the trailing length field: the total input byte count times
    /// eight, modulo 2^64, as eight big-endian bytes.
    pub fn append_length_info(&self, chunk: &mut Vec<u8>, original_length: u64)
        ensures
            final(chunk)@ == old(chunk)@ + be64_bytes(
                (((original_length * 8) % 0x1_0000_0000_0000_0000) as u64),
            ),
    {
        let bits = original_length.wrapping_mul(8);
        chunk.push(Self::byte_of(bits, 56));
        chunk.push(Self::byte_of(bits, 48));
        chunk.push(Self::byte_of(bits, 40));
        chunk.push(Self::byte_of(bits, 32));
        chunk.push(Self::byte_of(bits, 24));
        chunk.push(Self::byte_of(bits, 16));
        chunk.push(Self::byte_of(bits, 8));
        chunk.push(Self::byte_of(bits, 0));
        proof {
            assert(((bits >> 0u32) & 0xff) == (bits & 0xff)) by (bit_vector);
            assert(chunk@ =~= old(chunk)@ + be64_bytes(bits));
        }
    }

    /// Consume the final, shorter-than-full chunk of the stream: apply the
    /// padding and the length field, then compress the resulting blocks.
    /// Afterwards the accumulators hold the digest of everything fed.
    pub fn handle_message_end(&mut self, chunk: Vec<u8>)
        requires
            old(self).wf(),
        ensures
            final(self).wf(),
            final(self).consumed() == pad(old(self).consumed() + chunk@),
            final(self).accs() == sha1_accs(old(self).consumed() + chunk@),
    {
        let ghost message = old(self).consumed() + chunk@;
        let ghost p_len = old(self).consumed().len();
        let ghost c_len = chunk@.len();
        let mut chunk = chunk;
        let total: u64 = self.count.wrapping_add(chunk.len() as u64);
        self.append_padding(&mut chunk);
        self.append_length_info(&mut chunk, total);
        proof {
            let m = 0x1_0000_0000_0000_0000int;
            lemma_mod_64_of_concat(p_len, c_len);
            assert(pad_zeros(message.len()) == pad_zeros(c_len));
            vstd::arithmetic::div_mod::lemma_add_mod_noop(p_len as int, c_len as int, m);
            vstd::arithmetic::div_mod::lemma_small_mod(c_len, m as nat);
            if old(self).count + c_len >= m {
                vstd::arithmetic::div_mod::lemma_mod_add_multiples_vanish(
                    old(self).count + c_len as int - m,
                    m,
                );
                vstd::arithmetic::div_mod::lemma_small_mod(
                    (old(self).count + c_len - m) as nat,
                    m as nat,
                );
            } else {
                vstd::arithmetic::div_mod::lemma_small_mod(
                    (old(self).count + c_len) as nat,
                    m as nat,
                );
            }
            assert(total == message.len() as int % m);
            vstd::arithmetic::div_mod::lemma_mul_mod_noop_left(message.len() as int, 8, m);
            assert((total * 8) % m == (message.len() as int * 8) % m);
            lemma_padded_chunk_aligned(c_len);
            assert(chunk@.len() % 64 == 0) by {
                assert(chunk@.len() == c_len + 1 + pad_zeros(c_len) + 8);
            }
        }
        self.process_chunk(chunk.as_slice());
        proof {
            assert(self.consumed() =~= pad(message));
        }
    }

    /// The finished digest: the five accumulators as fixed 8-digit
    /// lowercase hex fields, concatenated in accumulator order.
    pub fn prepare_final_hash(&self) -> (r: String)
        ensures
            r@ == accs_hex(self.accs()),
    {
        let mut s = String::new();
        Self::push_hex32(&mut s, self.h0);
        Self::push_hex32(&mut s, self.h1);
        Self::push_hex32(&mut s, self.h2);
        Self::push_hex32(&mut s, self.h3);
        Self::push_hex32(&mut s, self.h4);
        proof {
            assert(s@ =~= accs_hex(self.accs()));
        }
        s
    }

    /// One byte of a 64-bit word, counted from the low end by shift.
    fn byte_of(v: u64, sh: u32) -> (r: u8)
        requires
            sh < 64,
        ensures
            r == ((v >> sh) & 0xff) as u8,
    {
        proof {
            assert(((v >> sh) & 0xff) < 256) by (bit_vector);
        }
        ((v >> sh) & 0xff) as u8
    }

    /// One hex digit of a 32-bit word, counted from the low end by shift.
    fn nibble(v: u32, sh: u32) -> (r: u8)
        requires
            sh < 32,
        ensures
            r == ((v >> sh) & 0xf) as u8,
            r < 16,
    {
        proof {
            assert(((v >> sh) & 0xf) < 16) by (bit_vector);
        }
        ((v >> sh) & 0xf) as u8
    }

    /// One lowercase hex digit as a string slice.
    fn hex_digit_str(n: u8) -> (r: &'static str)
        requires
            n < 16,
        ensures
            r@ =~= seq![hex_char(n)],
    {
        proof {
            reveal_strlit("0");
            reveal_strlit("1");
            reveal_strlit("2");
            reveal_strlit("3");
            reveal_strlit("4");
            reveal_strlit("5");
            reveal_strlit("6");
            reveal_strlit("7");
            reveal_strlit("8");
            reveal_strlit("9");
            reveal_strlit("a");
            reveal_strlit("b");
            reveal_strlit("c");
            reveal_strlit("d");
            reveal_strlit("e");
            reveal_strlit("f");
        }
        if n == 0 {
            "0"
        } else if n == 1 {
            "1"
        } else if n == 2 {
            "2"
        } else if n == 3 {
            "3"
        } else if n == 4 {
            "4"
        } else if n == 5 {
            "5"
        } else if n == 6 {
            "6"
        } else if n == 7 {
            "7"
        } else if n == 8 {
            "8"
        } else if n == 9 {
            "9"
        } else if n == 10 {
            "a"
        } else if n == 11 {
            "b"
        } else if n == 12 {
            "c"
        } else if n == 13 {
            "d"
        } else if n == 14 {
            "e"
        } else {
            "f"
        }
    }

    /// Append the eight hex digits of one 32-bit word.
    fn push_hex32(s: &mut String, v: u32)
        ensures
            final(s)@ == old(s)@ + hex32(v),
    {
        s.append(Self::hex_digit_str(Self::nibble(v, 28)));
        s.append(Self::hex_digit_str(Self::nibble(v, 24)));
        s.append(Self::hex_digit_str(Self::nibble(v, 20)));
        s.append(Self::hex_digit_str(Self::nibble(v, 16)));
        s.append(Self::hex_digit_str(Self::nibble(v, 12)));
        s.append(Self::hex_digit_str(Self::nibble(v, 8)));
        s.append(Self::hex_digit_str(Self::nibble(v, 4)));
        s.append(Self::hex_digit_str(Self::nibble(v, 0)));
        proof {
            assert(((v >> 0u32) & 0xf) == (v & 0xf)) by (bit_vector);
            assert(s@ =~= old(s)@ + hex32(v));
        }
    }

    /// Digest a whole in-memory byte string in one call: a fresh engine,
    /// one final chunk, and the hex digest out.
    pub fn from_bytes(data: Vec<u8>) -> (r: String)
        ensures
            r@ == sha1_hex(data@),
    {
        let ghost bytes = data@;
        let mut sha = Self::new();
        sha.handle_message_end(data);
        proof {
            assert(Seq::<u8>::empty() + bytes =~= bytes);
        }
        sha.prepare_final_hash()
    }

    /// A fresh engine for one stream, at the fixed initial accumulators.
    pub fn new() -> (r: SHA1)
        ensures
            r.wf(),
            r.consumed() == Seq::<u8>::empty(),
    {
        SHA1 {
            h0: 0x67452301,
            h1: 0xEFCDAB89,
            h2: 0x98BADCFE,
            h3: 0x10325476,
            h4: 0xC3D2E1F0,
            count: 0,
            consumed: Ghost(Seq::empty()),
        }
    }
}

} // verus!
