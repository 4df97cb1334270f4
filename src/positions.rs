use vstd::prelude::*;
use bitpacking::{BitPacker, BitPacker4x};
use crate::bits::{
    le_u32, le_u64, le_u64s, lemma_max_bit_width_u32, max_bit_width, serialize_u32, serialize_u64,
};

verus! {

/// Number of positions packed together in one block.
pub const COMPRESSION_BLOCK_SIZE: usize = 128;

/// Number of positions between two long skips: one every 1024 blocks.
pub const LONG_SKIP_INTERVAL: u64 = 131072;

#[verifier::external_type_specification]
#[verifier::external_body]
pub struct ExBitPacker4x(BitPacker4x);

/// The bytes that bitpacking's 4x packer writes for a block of 128 values
/// packed with `num_bits` bits each.
pub uninterp spec fn bitpacked(block: Seq<u32>, num_bits: u8) -> Seq<u8>;

/// Relies on `BitPacker::new` of bitpacking's `BitPacker4x`: it picks the
/// instruction set of this machine, and every choice writes the same bytes.
#[verifier::external_body]
fn new_bit_packer() -> BitPacker4x {
    BitPacker4x::new()
}

/// Relies on `BitPacker::num_bits`: on a block of exactly 128 values it
/// returns the bits needed by the largest value.
#[verifier::external_body]
fn block_num_bits(packer: &BitPacker4x, block: &Vec<u32>) -> (r: u8)
    requires
        block@.len() == 128,
    ensures
        r as nat == max_bit_width(block@),
{
    packer.num_bits(block)
}

/// Relies on `BitPacker::compress`: a block of exactly 128 values that all
/// fit in `num_bits` bits is packed into the first `16 * num_bits` bytes of
/// `output`, and that count is returned.
#[verifier::external_body]
fn compress_block(packer: &BitPacker4x, block: &Vec<u32>, output: &mut Vec<u8>, num_bits: u8) -> (r:
    usize)
    requires
        block@.len() == 128,
        num_bits as nat == max_bit_width(block@),
        old(output)@.len() >= 16 * num_bits,
    ensures
        r == 16 * num_bits,
        final(output)@.len() == old(output)@.len(),
        final(output)@.subrange(0, r as int) == bitpacked(block@, num_bits),
{
    packer.compress(block, output, num_bits)
}

/// The `j`-th block of 128 positions.
pub open spec fn block_at(vals: Seq<u32>, j: int) -> Seq<u32> {
    vals.subrange(j * 128, j * 128 + 128)
}

/// The bit width the `j`-th block is packed with.
pub open spec fn block_bits(vals: Seq<u32>, j: int) -> nat {
    max_bit_width(block_at(vals, j))
}

/// The bit widths of the first `m` blocks, one byte each.
pub open spec fn skips_upto(vals: Seq<u32>, m: nat) -> Seq<u8>
    decreases m,
{
    if m == 0 {
        Seq::empty()
    } else {
        skips_upto(vals, (m - 1) as nat).push(block_bits(vals, m - 1) as u8)
    }
}

/// The packed bytes of the first `m` blocks.
pub open spec fn stream_upto(vals: Seq<u32>, m: nat) -> Seq<u8>
    decreases m,
{
    if m == 0 {
        Seq::empty()
    } else {
        stream_upto(vals, (m - 1) as nat) + bitpacked(
            block_at(vals, m - 1),
            block_bits(vals, m - 1) as u8,
        )
    }
}

/// The total bit width of the first `m` blocks.
pub open spec fn cum_bits(vals: Seq<u32>, m: nat) -> nat
    decreases m,
{
    if m == 0 {
        0
    } else {
        cum_bits(vals, (m - 1) as nat) + block_bits(vals, m - 1)
    }
}

/// The total bit width reached after each run of 1024 blocks, among the
/// first `m` blocks.
pub open spec fn long_skips_upto(vals: Seq<u32>, m: nat) -> Seq<u64>
    decreases m,
{
    if m == 0 {
        Seq::empty()
    } else if m % 1024 == 0 {
        long_skips_upto(vals, (m - 1) as nat).push(cum_bits(vals, m) as u64)
    } else {
        long_skips_upto(vals, (m - 1) as nat)
    }
}

/// The positions after the last full block.
pub open spec fn tail_block(vals: Seq<u32>) -> Seq<u32> {
    vals.subrange(((vals.len() / 128) * 128) as int, vals.len() as int)
}

/// The last partial block, filled up with zeros.
pub open spec fn padded_tail(vals: Seq<u32>) -> Seq<u32> {
    tail_block(vals) + Seq::new((128 - tail_block(vals).len()) as nat, |i: int| 0u32)
}

/// Everything the position stream holds once the serializer is closed.
pub open spec fn closed_stream(start: Seq<u8>, vals: Seq<u32>) -> Seq<u8> {
    let m = vals.len() / 128;
    let t = padded_tail(vals);
    start + stream_upto(vals, m) + if tail_block(vals).len() == 0 {
        Seq::empty()
    } else {
        bitpacked(t, max_bit_width(t) as u8)
    }
}

/// Everything the skip list holds once the serializer is closed: the bit
/// width of each block, the long skips, and their number.
pub open spec fn closed_skiplist(start: Seq<u8>, vals: Seq<u32>) -> Seq<u8> {
    let m = vals.len() / 128;
    let t = padded_tail(vals);
    let long = long_skips_upto(vals, m);
    start + skips_upto(vals, m) + (if tail_block(vals).len() == 0 {
        Seq::empty()
    } else {
        seq![max_bit_width(t) as u8]
    }) + le_u64s(long) + le_u32(long.len() as u32)
}

/// The first `m` blocks are all that the model of `m` blocks reads.
proof fn lemma_upto_prefix(v1: Seq<u32>, v2: Seq<u32>, m: nat)
    requires
        v1.len() >= (m * 128) as int,
        v2.len() >= (m * 128) as int,
        v1.subrange(0, (m * 128) as int) == v2.subrange(0, (m * 128) as int),
    ensures
        stream_upto(v1, m) == stream_upto(v2, m),
        skips_upto(v1, m) == skips_upto(v2, m),
        cum_bits(v1, m) == cum_bits(v2, m),
        long_skips_upto(v1, m) == long_skips_upto(v2, m),
    decreases m,
{
    if m > 0 {
        let k = (m - 1) as nat;
        assert(v1.subrange(0, (k * 128) as int) =~= v1.subrange(0, (m * 128) as int).subrange(0, (k * 128) as int));
        assert(v2.subrange(0, (k * 128) as int) =~= v2.subrange(0, (m * 128) as int).subrange(0, (k * 128) as int));
        lemma_upto_prefix(v1, v2, k);
        assert(block_at(v1, k as int) =~= v1.subrange(0, (m * 128) as int).subrange((k * 128) as int, (m * 128) as int));
        assert(block_at(v2, k as int) =~= v2.subrange(0, (m * 128) as int).subrange((k * 128) as int, (m * 128) as int));
    }
}

/// Each block adds at most 32 bits.
proof fn lemma_cum_bits_bound(v: Seq<u32>, m: nat)
    ensures
        cum_bits(v, m) <= 32 * m,
    decreases m,
{
    if m > 0 {
        lemma_cum_bits_bound(v, (m - 1) as nat);
        lemma_max_bit_width_u32(block_at(v, m - 1));
    }
}

/// A count of positions that ends a block ends a run of 1024 blocks iff it
/// is a multiple of `LONG_SKIP_INTERVAL`.
proof fn lemma_long_skip_boundary(q: nat)
    ensures
        (q * 128) % 131072 == 0 <==> q % 1024 == 0,
{
    let a = q / 1024;
    let b = q % 1024;
    assert(q == 1024 * a + b);
    assert(q * 128 == 131072 * a + 128 * b);
    assert((131072 * a + 128 * b) % 131072 == 128 * b) by (nonlinear_arith)
        requires
            0 <= b < 1024,
            a >= 0,
    ;
}

/// Writes positions block by block: each block of 128 positions is
/// bit-packed to the position stream, and its bit width goes to the skip
/// list.
pub struct PositionSerializer {
    bit_packer: BitPacker4x,
    write_stream: Vec<u8>,
    write_skiplist: Vec<u8>,
    block: Vec<u32>,
    buffer: Vec<u8>,
    num_ints: u64,
    long_skips: Vec<u64>,
    cumulated_num_bits: u64,
    written: Ghost<Seq<u32>>,
    stream_start: Ghost<Seq<u8>>,
    skiplist_start: Ghost<Seq<u8>>,
}

impl PositionSerializer {
    /// The positions written so far.
    pub closed spec fn written(&self) -> Seq<u32> {
        self.written@
    }

    /// What the position stream held before the serializer was made.
    pub closed spec fn stream_start(&self) -> Seq<u8> {
        self.stream_start@
    }

    /// What the skip list held before the serializer was made.
    pub closed spec fn skiplist_start(&self) -> Seq<u8> {
        self.skiplist_start@
    }

    /// The state is that left by writing `written()`.
    pub closed spec fn wf(&self) -> bool {
        let vals = self.written@;
        let m = vals.len() / 128;
        &&& vals.len() <= u64::MAX
        &&& self.num_ints == vals.len()
        &&& self.buffer@.len() == 512
        &&& self.block@ == tail_block(vals)
        &&& self.write_stream@ == self.stream_start@ + stream_upto(vals, m)
        &&& self.write_skiplist@ == self.skiplist_start@ + skips_upto(vals, m)
        &&& self.cumulated_num_bits == cum_bits(vals, m)
        &&& self.long_skips@ == long_skips_upto(vals, m)
    }

    /// A serializer that appends to `write_stream` and `write_skiplist`.
    pub fn new(write_stream: Vec<u8>, write_skiplist: Vec<u8>) -> (r: PositionSerializer)
        ensures
            r.wf(),
            r.written() == Seq::<u32>::empty(),
            r.stream_start() == write_stream@,
            r.skiplist_start() == write_skiplist@,
    {
        let ghost s0 = write_stream@;
        let ghost k0 = write_skiplist@;
        let r = PositionSerializer {
            bit_packer: new_bit_packer(),
            write_stream,
            write_skiplist,
            block: Vec::with_capacity(COMPRESSION_BLOCK_SIZE),
            buffer: vec![0u8; COMPRESSION_BLOCK_SIZE * 4],
            num_ints: 0u64,
            long_skips: Vec::new(),
            cumulated_num_bits: 0u64,
            written: Ghost(Seq::empty()),
            stream_start: Ghost(s0),
            skiplist_start: Ghost(k0),
        };
        assert(r.write_stream@ =~= s0 + stream_upto(Seq::empty(), 0));
        assert(r.write_skiplist@ =~= k0 + skips_upto(Seq::empty(), 0));
        assert(r.block@ =~= tail_block(Seq::empty()));
        r
    }

    /// The number of positions written so far.
    pub fn positions_idx(&self) -> (r: u64)
        requires
            self.wf(),
        ensures
            r == self.written().len(),
    {
        self.num_ints
    }
}

impl PositionSerializer {
    /// Packs the full block, records its bit width, and records a long skip
    /// at the end of each run of 1024 blocks.
    fn flush_block(&mut self)
        requires
            old(self).block@.len() == 128,
            old(self).buffer@.len() == 512,
            old(self).cumulated_num_bits + 32 <= u64::MAX,
        ensures
            final(self).write_stream@ == old(self).write_stream@ + bitpacked(
                old(self).block@,
                max_bit_width(old(self).block@) as u8,
            ),
            final(self).write_skiplist@ == old(self).write_skiplist@.push(
                max_bit_width(old(self).block@) as u8,
            ),
            final(self).cumulated_num_bits == old(self).cumulated_num_bits + max_bit_width(
                old(self).block@,
            ),
            final(self).long_skips@ == if old(self).num_ints % 131072 == 0 {
                old(self).long_skips@.push(final(self).cumulated_num_bits)
            } else {
                old(self).long_skips@
            },
            final(self).block@ == Seq::<u32>::empty(),
            final(self).buffer@.len() == 512,
            final(self).num_ints == old(self).num_ints,
            final(self).written == old(self).written,
            final(self).stream_start == old(self).stream_start,
            final(self).skiplist_start == old(self).skiplist_start,
    {
        let num_bits = block_num_bits(&self.bit_packer, &self.block);
        proof {
            lemma_max_bit_width_u32(self.block@);
        }
        self.cumulated_num_bits = self.cumulated_num_bits + num_bits as u64;
        self.write_skiplist.push(num_bits);
        let written_len = compress_block(&self.bit_packer, &self.block, &mut self.buffer, num_bits);
        let ghost packed = self.buffer@.subrange(0, written_len as int);
        let ghost stream_before = self.write_stream@;
        let mut k: usize = 0;
        while k < written_len
            invariant
                self.block@ == old(self).block@,
                self.write_skiplist@ == old(self).write_skiplist@.push(num_bits),
                num_bits as nat == max_bit_width(old(self).block@),
                self.cumulated_num_bits == old(self).cumulated_num_bits + num_bits,
                self.num_ints == old(self).num_ints,
                self.long_skips == old(self).long_skips,
                self.written == old(self).written,
                self.stream_start == old(self).stream_start,
                self.skiplist_start == old(self).skiplist_start,
                self.buffer@.len() == 512,
                written_len <= self.buffer@.len(),
                packed == self.buffer@.subrange(0, written_len as int),
                k <= written_len,
                self.write_stream@ == stream_before + packed.subrange(0, k as int),
            decreases written_len - k,
        {
            self.write_stream.push(self.buffer[k]);
            assert(packed.subrange(0, k + 1) =~= packed.subrange(0, k as int).push(packed[k as int]));
            k = k + 1;
        }
        assert(packed.subrange(0, written_len as int) =~= packed);
        self.block.clear();
        if self.num_ints % LONG_SKIP_INTERVAL == 0 {
            self.long_skips.push(self.cumulated_num_bits);
        }
    }

    /// Writes one position.
    pub fn write(&mut self, val: u32)
        requires
            old(self).wf(),
            old(self).written().len() < u64::MAX,
        ensures
            final(self).wf(),
            final(self).written() == old(self).written().push(val),
            final(self).stream_start() == old(self).stream_start(),
            final(self).skiplist_start() == old(self).skiplist_start(),
    {
        let ghost vals = self.written@;
        let ghost m = vals.len() / 128;
        let ghost vals2 = vals.push(val);
        self.block.push(val);
        self.num_ints = self.num_ints + 1;
        self.written = Ghost(vals2);
        proof {
            assert(vals2.subrange(0, (m * 128) as int) =~= vals.subrange(0, (m * 128) as int));
            lemma_upto_prefix(vals, vals2, m);
            assert(self.block@ =~= vals2.subrange((m * 128) as int, vals2.len() as int));
        }
        if self.block.len() == COMPRESSION_BLOCK_SIZE {
            proof {
                lemma_cum_bits_bound(vals2, m);
                assert(vals2.len() == (m + 1) * 128);
                assert(32 * m + 32 <= u64::MAX);
            }
            self.flush_block();
            proof {
                let m2 = (m + 1) as nat;
                assert(vals2.len() / 128 == m2);
                assert(block_at(vals2, m as int) =~= vals2.subrange((m * 128) as int, vals2.len() as int));
                lemma_long_skip_boundary(m2);
                assert(self.num_ints == m2 * 128);
                assert(self.write_stream@ =~= self.stream_start@ + stream_upto(vals2, m2));
                assert(self.write_skiplist@ =~= self.skiplist_start@ + skips_upto(vals2, m2));
                assert(self.block@ =~= tail_block(vals2));
            }
        } else {
            proof {
                assert(vals2.len() / 128 == m);
            }
        }
    }

    /// Writes the positions of `vals`, in order.
    pub fn write_all(&mut self, vals: &[u32])
        requires
            old(self).wf(),
            old(self).written().len() + vals@.len() <= u64::MAX,
        ensures
            final(self).wf(),
            final(self).written() == old(self).written() + vals@,
            final(self).stream_start() == old(self).stream_start(),
            final(self).skiplist_start() == old(self).skiplist_start(),
    {
        let ghost start = self.written@;
        let mut i: usize = 0;
        while i < vals.len()
            invariant
                self.wf(),
                i <= vals@.len(),
                start.len() + vals@.len() <= u64::MAX,
                self.written() == start + vals@.subrange(0, i as int),
                self.stream_start() == old(self).stream_start(),
                self.skiplist_start() == old(self).skiplist_start(),
            decreases vals@.len() - i,
        {
            self.write(vals[i]);
            assert(start + vals@.subrange(0, i + 1) =~= (start + vals@.subrange(0, i as int)).push(vals@[i as int]));
            i = i + 1;
        }
        assert(vals@.subrange(0, vals@.len() as int) =~= vals@);
    }

    /// Packs the last, partial block padded with zeros, then ends the skip
    /// list with the long skips and their number; returns the position
    /// stream and the skip list.
    pub fn close(self) -> (r: (Vec<u8>, Vec<u8>))
        requires
            self.wf(),
        ensures
            r.0@ == closed_stream(self.stream_start(), self.written()),
            r.1@ == closed_skiplist(self.skiplist_start(), self.written()),
    {
        let ghost vals = self.written@;
        let ghost m = vals.len() / 128;
        let mut this = self;
        if this.block.len() != 0 {
            let ghost tail = this.block@;
            while this.block.len() < COMPRESSION_BLOCK_SIZE
                invariant
                    this.num_ints == self.num_ints,
                    this.cumulated_num_bits == self.cumulated_num_bits,
                    this.write_stream == self.write_stream,
                    this.write_skiplist == self.write_skiplist,
                    this.buffer == self.buffer,
                    this.long_skips == self.long_skips,
                    this.stream_start == self.stream_start,
                    this.skiplist_start == self.skiplist_start,
                    tail.len() <= this.block@.len() <= 128,
                    this.block@ =~= tail + Seq::new((this.block@.len() - tail.len()) as nat, |i: int| 0u32),
                decreases 128 - this.block@.len(),
            {
                this.block.push(0u32);
            }
            proof {
                lemma_cum_bits_bound(vals, m);
                assert(vals.len() < (m + 1) * 128);
                assert(this.block@ =~= padded_tail(vals));
                assert(tail.len() > 0);
                assert(this.num_ints % 131072 != 0) by {
                    let len = vals.len() as int;
                    assert(len - (len / 128) * 128 > 0);
                    if len % 131072 == 0 {
                        let c = len / 131072;
                        assert(len == 131072 * c);
                        assert((131072 * c) / 128 == 1024 * c) by (nonlinear_arith);
                        assert(len / 128 == 1024 * c);
                    }
                }
            }
            this.flush_block();
        }
        let mut i: usize = 0;
        let ghost before = this.write_skiplist@;
        let ghost stream_after = this.write_stream@;
        while i < this.long_skips.len()
            invariant
                this.write_stream@ == stream_after,
                this.stream_start == self.stream_start,
                this.skiplist_start == self.skiplist_start,
                i <= this.long_skips@.len(),
                this.long_skips@ == long_skips_upto(vals, m),
                this.write_skiplist@ == before + le_u64s(this.long_skips@.subrange(0, i as int)),
            decreases this.long_skips@.len() - i,
        {
            let long_skip = this.long_skips[i];
            serialize_u64(long_skip, &mut this.write_skiplist);
            assert(this.long_skips@.subrange(0, i + 1).drop_last() =~= this.long_skips@.subrange(0, i as int));
            i = i + 1;
        }
        assert(this.long_skips@.subrange(0, this.long_skips@.len() as int) =~= this.long_skips@);
        let count = #[verifier::truncate] (this.long_skips.len() as u32);
        serialize_u32(count, &mut this.write_skiplist);
        proof {
            if tail_block(vals).len() == 0 {
                assert(this.write_stream@ =~= closed_stream(this.stream_start@, vals));
            } else {
                assert(this.write_stream@ =~= closed_stream(this.stream_start@, vals));
            }
            assert(this.write_skiplist@ =~= closed_skiplist(this.skiplist_start@, vals));
        }
        (this.write_stream, this.write_skiplist)
    }
}

} // verus!
