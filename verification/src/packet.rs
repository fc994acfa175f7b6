//! The TCP segment codec: a 20-byte header (no options) followed by the
//! payload, with big-endian fields and the IPv4 pseudo-header checksum.
use vstd::prelude::*;

verus! {

/// Number of bytes in a TCP header without options.
pub const TCP_HEADER_SIZE: usize = 20;

/// Largest whole segment: the pseudo-header carries the TCP length in 16 bits.
pub const MAX_SEGMENT_SIZE: usize = 65535;

/// The value of a two-byte big-endian field.
pub open spec fn be16(hi: u8, lo: u8) -> int {
    hi as int * 0x100 + lo as int
}

/// The value of a four-byte big-endian field.
pub open spec fn be32(b0: u8, b1: u8, b2: u8, b3: u8) -> int {
    b0 as int * 0x1000000 + b1 as int * 0x10000 + b2 as int * 0x100 + b3 as int
}

/// Source port field of an encoded segment.
pub open spec fn src_of(b: Seq<u8>) -> int {
    be16(b[0], b[1])
}

/// Destination port field of an encoded segment.
pub open spec fn dest_of(b: Seq<u8>) -> int {
    be16(b[2], b[3])
}

/// Sequence number field of an encoded segment.
pub open spec fn seq_of(b: Seq<u8>) -> int {
    be32(b[4], b[5], b[6], b[7])
}

/// Acknowledgment number field of an encoded segment.
pub open spec fn ack_of(b: Seq<u8>) -> int {
    be32(b[8], b[9], b[10], b[11])
}

/// Flag byte of an encoded segment.
pub open spec fn flag_of(b: Seq<u8>) -> u8 {
    b[13]
}

/// Window field of an encoded segment.
pub open spec fn window_of(b: Seq<u8>) -> int {
    be16(b[14], b[15])
}

/// Checksum field of an encoded segment.
pub open spec fn checksum_field_of(b: Seq<u8>) -> int {
    be16(b[16], b[17])
}

/// The given flag bit (or one of the given bits) is set in the segment.
pub open spec fn has_flag(b: Seq<u8>, bit: u8) -> bool {
    flag_of(b) & bit > 0
}

/// The payload bytes of an encoded segment: everything after the header.
pub open spec fn payload_of(b: Seq<u8>) -> Seq<u8> {
    b.subrange(TCP_HEADER_SIZE as int, b.len() as int)
}

/// A TCP segment held as its encoded bytes: header first, payload after.
pub struct TCPPacket {
    buffer: Vec<u8>,
}

impl Clone for TCPPacket {
    fn clone(&self) -> (r: Self)
        ensures
            r@ == self@,
    {
        TCPPacket { buffer: self.buffer.clone() }
    }
}

impl View for TCPPacket {
    type V = Seq<u8>;

    closed spec fn view(&self) -> Seq<u8> {
        self.buffer@
    }
}

impl TCPPacket {
    /// A segment holds at least a whole header and fits the 16-bit TCP length.
    pub open spec fn wf(&self) -> bool {
        TCP_HEADER_SIZE <= self@.len() <= MAX_SEGMENT_SIZE
    }

    /// A zeroed segment with room for `payload_len` payload bytes.
    pub fn new(payload_len: usize) -> (r: Self)
        requires
            payload_len <= MAX_SEGMENT_SIZE - TCP_HEADER_SIZE,
        ensures
            r.wf(),
            r@.len() == TCP_HEADER_SIZE + payload_len,
            forall|i: int| 0 <= i < r@.len() ==> r@[i] == 0u8,
    {
        let mut buffer: Vec<u8> = Vec::new();
        let total = TCP_HEADER_SIZE + payload_len;
        let mut i: usize = 0;
        while i < total
            invariant
                i <= total,
                total == TCP_HEADER_SIZE + payload_len,
                buffer@.len() == i,
                forall|j: int| 0 <= j < i ==> buffer@[j] == 0u8,
            decreases total - i,
        {
            buffer.push(0u8);
            i = i + 1;
        }
        TCPPacket { buffer }
    }

    /// A segment taken over from already-encoded bytes; refused when they
    /// cannot hold a header or exceed the largest segment.
    pub fn from_bytes(bytes: &Vec<u8>) -> (r: Option<Self>)
        ensures
            match r {
                Some(p) => p.wf() && p@ == bytes@,
                None => bytes@.len() < TCP_HEADER_SIZE || bytes@.len() > MAX_SEGMENT_SIZE,
            },
    {
        if bytes.len() < TCP_HEADER_SIZE || bytes.len() > MAX_SEGMENT_SIZE {
            None
        } else {
            Some(TCPPacket { buffer: bytes.clone() })
        }
    }

    /// The encoded bytes of the whole segment.
    pub fn packet(&self) -> (r: &Vec<u8>)
        ensures
            r@ == self@,
    {
        &self.buffer
    }

    /// A copy of the payload bytes.
    pub fn payload(&self) -> (r: Vec<u8>)
        requires
            self.wf(),
        ensures
            r@ == payload_of(self@),
    {
        let mut r: Vec<u8> = Vec::new();
        let mut i: usize = TCP_HEADER_SIZE;
        while i < self.buffer.len()
            invariant
                TCP_HEADER_SIZE <= i <= self.buffer@.len(),
                r@ == self.buffer@.subrange(TCP_HEADER_SIZE as int, i as int),
            decreases self.buffer@.len() - i,
        {
            let b = self.buffer[i];
            r.push(b);
            proof {
                assert(r@ =~= self.buffer@.subrange(TCP_HEADER_SIZE as int, i + 1));
            }
            i = i + 1;
        }
        proof {
            assert(r@ =~= payload_of(self@));
        }
        r
    }

    /// Number of payload bytes.
    pub fn payload_len(&self) -> (r: usize)
        requires
            self.wf(),
        ensures
            r == payload_of(self@).len(),
    {
        self.buffer.len() - TCP_HEADER_SIZE
    }

    pub fn get_src(&self) -> (r: u16)
        requires
            self.wf(),
        ensures
            r == src_of(self@),
    {
        read_be16(self.buffer[0], self.buffer[1])
    }

    pub fn get_dest(&self) -> (r: u16)
        requires
            self.wf(),
        ensures
            r == dest_of(self@),
    {
        read_be16(self.buffer[2], self.buffer[3])
    }

    pub fn get_seq(&self) -> (r: u32)
        requires
            self.wf(),
        ensures
            r == seq_of(self@),
    {
        read_be32(self.buffer[4], self.buffer[5], self.buffer[6], self.buffer[7])
    }

    pub fn get_ack(&self) -> (r: u32)
        requires
            self.wf(),
        ensures
            r == ack_of(self@),
    {
        read_be32(self.buffer[8], self.buffer[9], self.buffer[10], self.buffer[11])
    }

    pub fn get_flag(&self) -> (r: u8)
        requires
            self.wf(),
        ensures
            r == flag_of(self@),
    {
        self.buffer[13]
    }

    pub fn get_window_size(&self) -> (r: u16)
        requires
            self.wf(),
        ensures
            r == window_of(self@),
    {
        read_be16(self.buffer[14], self.buffer[15])
    }

    pub fn get_checksum(&self) -> (r: u16)
        requires
            self.wf(),
        ensures
            r == checksum_field_of(self@),
    {
        read_be16(self.buffer[16], self.buffer[17])
    }

    pub fn set_src(&mut self, port: u16)
        requires
            old(self).wf(),
        ensures
            final(self).wf(),
            final(self)@.len() == old(self)@.len(),
            src_of(final(self)@) == port,
            forall|i: int| 0 <= i < final(self)@.len() && !(0 <= i < 2) ==> final(self)@[i] == old(self)@[i],
    {
        let (hi, lo) = split_be16(port);
        self.buffer.set(0, hi);
        self.buffer.set(1, lo);
    }

    pub fn set_dest(&mut self, port: u16)
        requires
            old(self).wf(),
        ensures
            final(self).wf(),
            final(self)@.len() == old(self)@.len(),
            dest_of(final(self)@) == port,
            forall|i: int| 0 <= i < final(self)@.len() && !(2 <= i < 4) ==> final(self)@[i] == old(self)@[i],
    {
        let (hi, lo) = split_be16(port);
        self.buffer.set(2, hi);
        self.buffer.set(3, lo);
    }

    pub fn set_seq(&mut self, num: u32)
        requires
            old(self).wf(),
        ensures
            final(self).wf(),
            final(self)@.len() == old(self)@.len(),
            seq_of(final(self)@) == num,
            forall|i: int| 0 <= i < final(self)@.len() && !(4 <= i < 8) ==> final(self)@[i] == old(self)@[i],
    {
        let (b0, b1, b2, b3) = split_be32(num);
        self.buffer.set(4, b0);
        self.buffer.set(5, b1);
        self.buffer.set(6, b2);
        self.buffer.set(7, b3);
    }

    pub fn set_ack(&mut self, num: u32)
        requires
            old(self).wf(),
        ensures
            final(self).wf(),
            final(self)@.len() == old(self)@.len(),
            ack_of(final(self)@) == num,
            forall|i: int| 0 <= i < final(self)@.len() && !(8 <= i < 12) ==> final(self)@[i] == old(self)@[i],
    {
        let (b0, b1, b2, b3) = split_be32(num);
        self.buffer.set(8, b0);
        self.buffer.set(9, b1);
        self.buffer.set(10, b2);
        self.buffer.set(11, b3);
    }

    /// Folds `offset` into the high nibble of the data-offset byte.
    pub fn set_data_offset(&mut self, offset: u8)
        requires
            old(self).wf(),
            offset < 16,
        ensures
            final(self).wf(),
            final(self)@.len() == old(self)@.len(),
            final(self)@[12] == (old(self)@[12] | (offset << 4)),
            forall|i: int| 0 <= i < final(self)@.len() && i != 12 ==> final(self)@[i] == old(self)@[i],
    {
        let b = self.buffer[12] | (offset << 4);
        self.buffer.set(12, b);
    }

    pub fn set_flag(&mut self, flag: u8)
        requires
            old(self).wf(),
        ensures
            final(self).wf(),
            final(self)@.len() == old(self)@.len(),
            flag_of(final(self)@) == flag,
            forall|i: int| 0 <= i < final(self)@.len() && i != 13 ==> final(self)@[i] == old(self)@[i],
    {
        self.buffer.set(13, flag);
    }

    pub fn set_window_size(&mut self, window: u16)
        requires
            old(self).wf(),
        ensures
            final(self).wf(),
            final(self)@.len() == old(self)@.len(),
            window_of(final(self)@) == window,
            forall|i: int| 0 <= i < final(self)@.len() && !(14 <= i < 16) ==> final(self)@[i] == old(self)@[i],
    {
        let (hi, lo) = split_be16(window);
        self.buffer.set(14, hi);
        self.buffer.set(15, lo);
    }

    pub fn set_checksum(&mut self, checksum: u16)
        requires
            old(self).wf(),
        ensures
            final(self).wf(),
            final(self)@.len() == old(self)@.len(),
            checksum_field_of(final(self)@) == checksum,
            forall|i: int| 0 <= i < final(self)@.len() && !(16 <= i < 18) ==> final(self)@[i] == old(self)@[i],
    {
        let (hi, lo) = split_be16(checksum);
        self.buffer.set(16, hi);
        self.buffer.set(17, lo);
    }

    /// Copies `payload` in after the header; the segment must have room.
    pub fn set_payload(&mut self, payload: &[u8])
        requires
            old(self).wf(),
            TCP_HEADER_SIZE + payload@.len() <= old(self)@.len(),
        ensures
            final(self).wf(),
            final(self)@.len() == old(self)@.len(),
            forall|i: int|
                0 <= i < payload@.len() ==> final(self)@[TCP_HEADER_SIZE + i] == payload@[i],
            forall|i: int|
                0 <= i < final(self)@.len() && !(TCP_HEADER_SIZE <= i < TCP_HEADER_SIZE + payload@.len())
                    ==> final(self)@[i] == old(self)@[i],
    {
        let mut i: usize = 0;
        while i < payload.len()
            invariant
                i <= payload@.len(),
                TCP_HEADER_SIZE + payload@.len() <= self.buffer@.len(),
                self.buffer@.len() <= MAX_SEGMENT_SIZE,
                self.buffer@.len() == old(self)@.len(),
                forall|j: int| 0 <= j < i ==> self.buffer@[TCP_HEADER_SIZE + j] == payload@[j],
                forall|j: int|
                    0 <= j < self.buffer@.len() && !(TCP_HEADER_SIZE <= j < TCP_HEADER_SIZE + i)
                        ==> self.buffer@[j] == old(self)@[j],
            decreases payload@.len() - i,
        {
            let b = payload[i];
            self.buffer.set(TCP_HEADER_SIZE + i, b);
            i = i + 1;
        }
    }
}

/// The 16-bit word at index `i` of a byte sequence read big-endian; a
/// missing final low byte counts as zero.
pub open spec fn word_at(b: Seq<u8>, i: int) -> int {
    if 2 * i + 1 < b.len() {
        be16(b[2 * i], b[2 * i + 1])
    } else {
        be16(b[2 * i], 0)
    }
}

/// How many 16-bit words cover a byte sequence.
pub open spec fn num_words(b: Seq<u8>) -> int {
    (b.len() as int + 1) / 2
}

/// Sum of the first `n` 16-bit words of a segment, with the checksum field
/// (word 8 of the header) counted as zero.
pub open spec fn sum_words(b: Seq<u8>, n: int) -> int
    decreases n,
{
    if n <= 0 {
        0
    } else {
        sum_words(b, n - 1) + if n - 1 == 8 {
            0
        } else {
            word_at(b, n - 1)
        }
    }
}

/// Sum of the 16-bit words of the IPv4 pseudo-header: source address,
/// destination address, protocol 6 (TCP), and the TCP length.
pub open spec fn pseudo_header_sum(src_addr: u32, dest_addr: u32, tcp_len: int) -> int {
    src_addr as int / 0x10000 + src_addr as int % 0x10000 + dest_addr as int / 0x10000
        + dest_addr as int % 0x10000 + 6 + tcp_len
}

/// End-around-carry reduction of a sum to a 16-bit value.
pub open spec fn fold_carry(s: int) -> int
    decreases s,
{
    if s < 0x10000 {
        s
    } else {
        fold_carry(s % 0x10000 + s / 0x10000)
    }
}

/// The segment checksum: the one's complement of the folded sum of the
/// pseudo-header and the segment bytes, the checksum field read as zero.
pub open spec fn checksum_of(src_addr: u32, dest_addr: u32, b: Seq<u8>) -> int {
    0xFFFF - fold_carry(pseudo_header_sum(src_addr, dest_addr, b.len() as int) + sum_words(
        b,
        num_words(b),
    ))
}

/// A segment whose checksum field holds the checksum of its own bytes.
pub open spec fn checksum_ok(src_addr: u32, dest_addr: u32, b: Seq<u8>) -> bool {
    checksum_field_of(b) == checksum_of(src_addr, dest_addr, b)
}

/// Word sums ignore the checksum field: two segments that agree everywhere
/// but on bytes 16 and 17 have the same word sum.
pub proof fn lemma_sum_words_ignores_checksum_field(a: Seq<u8>, b: Seq<u8>, n: int)
    requires
        a.len() == b.len(),
        forall|i: int| 0 <= i < a.len() && i != 16 && i != 17 ==> a[i] == b[i],
        n <= num_words(a),
    ensures
        sum_words(a, n) == sum_words(b, n),
    decreases n,
{
    if n > 0 {
        lemma_sum_words_ignores_checksum_field(a, b, n - 1);
    }
}

/// Every partial word sum lies between 0 and 0xFFFF per word.
proof fn lemma_sum_words_bounds(b: Seq<u8>, n: int)
    requires
        0 <= n,
        2 * n - 1 <= b.len(),
    ensures
        0 <= sum_words(b, n) <= n * 0xFFFF,
    decreases n,
{
    if n > 0 {
        lemma_sum_words_bounds(b, n - 1);
    }
}

/// Folding keeps a non-negative sum non-negative and caps it at 0xFFFF.
proof fn lemma_fold_carry_bounds(s: int)
    requires
        0 <= s,
    ensures
        0 <= fold_carry(s) <= 0xFFFF,
    decreases s,
{
    if s >= 0x10000 {
        lemma_fold_carry_bounds(s % 0x10000 + s / 0x10000);
    }
}

/// Computes the IPv4 pseudo-header checksum of an encoded segment, the
/// checksum field itself read as zero.
pub fn compute_checksum(src_addr: u32, dest_addr: u32, buffer: &Vec<u8>) -> (r: u16)
    requires
        TCP_HEADER_SIZE <= buffer@.len() <= MAX_SEGMENT_SIZE,
    ensures
        r == checksum_of(src_addr, dest_addr, buffer@),
{
    let len = buffer.len();
    let n_words = (len + 1) / 2;
    let mut sum: u64 = (src_addr / 0x10000) as u64 + (src_addr % 0x10000) as u64 + (dest_addr
        / 0x10000) as u64 + (dest_addr % 0x10000) as u64 + 6 + len as u64;
    let ghost base: int = pseudo_header_sum(src_addr, dest_addr, buffer@.len() as int);
    let mut i: usize = 0;
    while i < n_words
        invariant
            i <= n_words,
            n_words == num_words(buffer@),
            len == buffer@.len(),
            TCP_HEADER_SIZE <= len <= MAX_SEGMENT_SIZE,
            base == pseudo_header_sum(src_addr, dest_addr, buffer@.len() as int),
            base <= 0x50000 + len,
            sum == base + sum_words(buffer@, i as int),
        decreases n_words - i,
    {
        proof {
            lemma_sum_words_bounds(buffer@, i as int);
        }
        if i != 8 {
            let hi = buffer[2 * i];
            let lo = if 2 * i + 1 < len {
                buffer[2 * i + 1]
            } else {
                0
            };
            sum = sum + (hi as u64) * 0x100 + (lo as u64);
        }
        i = i + 1;
    }
    proof {
        lemma_sum_words_bounds(buffer@, n_words as int);
        lemma_fold_carry_bounds(base + sum_words(buffer@, n_words as int));
    }
    let ghost total: int = base + sum_words(buffer@, num_words(buffer@));
    let mut s: u64 = sum;
    while s >= 0x10000
        invariant
            0 <= s,
            fold_carry(s as int) == fold_carry(total),
        decreases s,
    {
        s = s % 0x10000 + s / 0x10000;
    }
    proof {
        lemma_fold_carry_bounds(total);
    }
    (0xFFFF - s) as u16
}

impl TCPPacket {
    /// Whether the segment's checksum field matches the checksum of its
    /// bytes under the given pseudo-header addresses.
    pub fn is_correct_checksum(&self, local_addr: u32, remote_addr: u32) -> (r: bool)
        requires
            self.wf(),
        ensures
            r == checksum_ok(local_addr, remote_addr, self@),
    {
        self.get_checksum() == compute_checksum(local_addr, remote_addr, &self.buffer)
    }
}

fn read_be16(hi: u8, lo: u8) -> (r: u16)
    ensures
        r == be16(hi, lo),
{
    (hi as u16) * 0x100 + (lo as u16)
}

fn read_be32(b0: u8, b1: u8, b2: u8, b3: u8) -> (r: u32)
    ensures
        r == be32(b0, b1, b2, b3),
{
    (b0 as u32) * 0x1000000 + (b1 as u32) * 0x10000 + (b2 as u32) * 0x100 + (b3 as u32)
}

fn split_be16(v: u16) -> (r: (u8, u8))
    ensures
        be16(r.0, r.1) == v,
{
    ((v / 0x100) as u8, (v % 0x100) as u8)
}

fn split_be32(v: u32) -> (r: (u8, u8, u8, u8))
    ensures
        be32(r.0, r.1, r.2, r.3) == v,
{
    proof {
        lemma_u32_decompose(v);
    }
    ((v / 0x1000000) as u8, ((v / 0x10000) % 0x100) as u8, ((v / 0x100) % 0x100) as u8, (v
        % 0x100) as u8)
}

proof fn lemma_u32_decompose(v: u32)
    by (bit_vector)
    ensures
        (v / 0x1000000) * 0x1000000 + ((v / 0x10000) % 0x100) * 0x10000 + ((v / 0x100) % 0x100)
            * 0x100 + v % 0x100 == v,
        v / 0x1000000 < 0x100,
{
}

} // verus!
