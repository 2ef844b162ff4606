use vstd::prelude::*;
use crate::disk::bit_stream::{byte_bits, BitStream, BitStreams};
use crate::disk::disk_info::{DiskInfo, WozVersion};
use crate::disk::disk_controller::{
    DATA_FIELD_SIZE, DSK_SIZE_BYTES, LOGICAL_SECTORS, MAX_PHASE, MAX_TRACK_DSK, SECTOR_SIZE_BYTES,
    TRACK_SIZE_BYTES,
};
use crate::misc::bit_of;

verus! {

/// The 64 disk bytes that stand for the 6-bit values 0..63 in the 6-and-2 encoding.
pub const WRITE_TABLE: [u8; 64] = [
    0x96, 0x97, 0x9a, 0x9b, 0x9d, 0x9e, 0x9f, 0xa6,
    0xa7, 0xab, 0xac, 0xad, 0xae, 0xaf, 0xb2, 0xb3,
    0xb4, 0xb5, 0xb6, 0xb7, 0xb9, 0xba, 0xbb, 0xbc,
    0xbd, 0xbe, 0xbf, 0xcb, 0xcd, 0xce, 0xcf, 0xd3,
    0xd6, 0xd7, 0xd9, 0xda, 0xdb, 0xdc, 0xdd, 0xde,
    0xdf, 0xe5, 0xe6, 0xe7, 0xe9, 0xea, 0xeb, 0xec,
    0xed, 0xee, 0xef, 0xf2, 0xf3, 0xf4, 0xf5, 0xf6,
    0xf7, 0xf9, 0xfa, 0xfb, 0xfc, 0xfd, 0xfe, 0xff,
];

/// The bits of a sequence of bytes, each most significant bit first.
pub open spec fn bits_of_bytes(vs: Seq<u8>) -> Seq<u8>
    decreases vs.len(),
{
    if vs.len() == 0 {
        Seq::empty()
    } else {
        bits_of_bytes(vs.drop_last()) + byte_bits(vs.last())
    }
}

/// The two disk bytes of the 4-and-4 encoding of `v`.
pub open spec fn four_and_four(v: u8) -> Seq<u8> {
    seq![(v >> 1u8) | 0xaa, v | 0xaa]
}

/// The bits of `count` sync bytes: each is FF followed by two 0 bits.
pub open spec fn sync_bits(count: nat) -> Seq<u8>
    decreases count,
{
    if count == 0 {
        Seq::empty()
    } else {
        sync_bits((count - 1) as nat) + (byte_bits(0xff) + seq![0u8, 0u8])
    }
}

/// The 2-bit value `x & 3` with its two bits swapped.
pub open spec fn rev2(x: u8) -> u8 {
    ((x & 1) << 1u8) | ((x >> 1u8) & 1)
}

/// Value at position `c` (0..343) of a 256-byte sector in the 6-and-2 scheme,
/// before the values are chained by exclusive or: first the low two bits of the
/// bytes (86 values, three bytes packed in each), then the high six bits.
pub open spec fn six_bit_value(v: Seq<u8>, c: int) -> u8 {
    if c < 84 {
        rev2(v[c]) | (rev2(v[c + 86]) << 2u8) | (rev2(v[c + 172]) << 4u8)
    } else if c < 86 {
        rev2(v[c]) | (rev2(v[c + 86]) << 2u8)
    } else if c < 342 {
        v[c - 86] >> 2u8
    } else {
        // the last position repeats value 341
        v[255] >> 2u8
    }
}

/// The 6-bit value written at position `c`: each value is chained by exclusive
/// or to the one before it; the last position repeats value 341 as it is.
pub open spec fn chained_value(v: Seq<u8>, c: int) -> u8 {
    if c == 0 || c == 342 {
        six_bit_value(v, c)
    } else {
        six_bit_value(v, c) ^ six_bit_value(v, c - 1)
    }
}

/// The 343 disk bytes of the 6-and-2 encoding of a 256-byte sector.
pub open spec fn encode_62(v: Seq<u8>) -> Seq<u8> {
    Seq::new(DATA_FIELD_SIZE as nat, |c: int| WRITE_TABLE@[chained_value(v, c) as int])
}

/// The bit-level facts about bytes that the 6-and-2 and 4-and-4 encodings
/// rest on, checked once by the bit-vector solver.
proof fn lemma_byte_bits(x: u8, y: u8, z: u8, s: u8)
    by (bit_vector)
    ensures
        rev2(x) < 4,
        x & 3 < 4,
        x & 3 == 0 ==> rev2(x) == 0,
        x & 3 == 1 ==> rev2(x) == 2,
        x & 3 == 2 ==> rev2(x) == 1,
        x & 3 == 3 ==> rev2(x) == 3,
        x < 64 && y < 64 ==> x ^ y < 64,
        x < 4 && y < 4 && z < 4 ==> x | (y << 2u8) | (z << 4u8) < 64,
        x < 4 && y < 4 ==> x | (y << 2u8) < 64,
        x >> 2u8 < 64,
        s < 8 ==> (x & (1u8 << s)) >> s == (x >> s) & 1,
        x ^ y == y ^ x,
        x >> 0u8 == x,
        s <= 6 ==> (x >> s) >> 2u8 == x >> ((s + 2) as u8),
        ((x & 1) << 1u8) + ((x & 2) >> 1u8) == rev2(x & 3),
        rev2(x & 3) <= 3,
        x < 64 ==> x << 2u8 <= 252,
        0u8 ^ x == x,
        y ^ (x ^ y) == x,
        x < 4 && y < 4 && z < 4 ==> ((x | (y << 2u8) | (z << 4u8)) >> 0u8) & 3 == x,
        x < 4 && y < 4 && z < 4 ==> ((x | (y << 2u8) | (z << 4u8)) >> 2u8) & 3 == y,
        x < 4 && y < 4 && z < 4 ==> ((x | (y << 2u8) | (z << 4u8)) >> 4u8) & 3 == z,
        x < 4 && y < 4 ==> ((x | (y << 2u8)) >> 0u8) & 3 == x,
        x < 4 && y < 4 ==> ((x | (y << 2u8)) >> 2u8) & 3 == y,
        (((x >> 2u8) << 2u8) + rev2(rev2(x))) as u8 == x,
        (((((x >> 1u8) | 0xaa) << 1u8) | 0x55) & (x | 0xaa | 0xaa)) == x,
{
}

proof fn lemma_rev2(x: u8)
    ensures
        rev2(x) < 4,
        rev2(x) == [0u8, 2u8, 1u8, 3u8]@[(x & 3) as int],
{
    lemma_byte_bits(x, 0, 0, 0);
}

pub(crate) proof fn lemma_six_bit_small(v: Seq<u8>, c: int)
    requires
        v.len() >= 256,
        0 <= c < 343,
    ensures
        six_bit_value(v, c) < 64,
        chained_value(v, c) < 64,
{
    lemma_six_bit_value_small(v, c);
    if c > 0 && c < 342 {
        lemma_six_bit_value_small(v, c - 1);
        let p = six_bit_value(v, c);
        let q = six_bit_value(v, c - 1);
        lemma_byte_bits(p, q, 0, 0);
    }
}

proof fn lemma_six_bit_value_small(v: Seq<u8>, c: int)
    requires
        v.len() >= 256,
        0 <= c < 343,
    ensures
        six_bit_value(v, c) < 64,
{
    let a = rev2(v[c % 256]);
    lemma_rev2(v[c % 256]);
    if c < 84 {
        let x = rev2(v[c]);
        let y = rev2(v[c + 86]);
        let z = rev2(v[c + 172]);
        lemma_rev2(v[c]);
        lemma_rev2(v[c + 86]);
        lemma_rev2(v[c + 172]);
        lemma_byte_bits(x, y, z, 0);
    } else if c < 86 {
        let x = rev2(v[c]);
        let y = rev2(v[c + 86]);
        lemma_rev2(v[c]);
        lemma_rev2(v[c + 86]);
        lemma_byte_bits(x, y, 0, 0);
    } else if c < 342 {
        let x = v[c - 86];
        lemma_byte_bits(x, 0, 0, 0);
    } else {
        let x = v[255];
        lemma_byte_bits(x, 0, 0, 0);
    }
}

proof fn lemma_and3(x: u8)
    ensures
        x & 3 < 4,
{
    lemma_byte_bits(x, 0, 0, 0);
}

proof fn lemma_bits_of_one_byte(b: u8)
    ensures
        bits_of_bytes(seq![b]) == byte_bits(b),
{
    assert(seq![b].drop_last() =~= Seq::<u8>::empty());
    assert(bits_of_bytes(Seq::<u8>::empty()) == Seq::<u8>::empty());
    assert(bits_of_bytes(seq![b]) =~= byte_bits(b));
}

/// Shift-free view of `(value & (1 << shift)) >> shift`.
proof fn lemma_mask_bit(value: u8, shift: u8)
    requires
        shift < 8,
    ensures
        (value & (1u8 << shift)) >> shift == bit_of(value, shift),
{
    lemma_byte_bits(value, 0, 0, shift);
}


/// Index in `WRITE_TABLE[0..k]` of the disk byte `x` (the last one if several),
/// 0 when it is not there.
pub open spec fn read_index(x: u8, k: int) -> u8
    decreases k,
{
    if k <= 0 {
        0
    } else if WRITE_TABLE@[k - 1] == x {
        (k - 1) as u8
    } else {
        read_index(x, k - 1)
    }
}

/// The 6-bit value that the disk byte `x` stands for.
pub open spec fn read_value(x: u8) -> u8 {
    read_index(x, 64)
}

/// Exclusive or of the 6-bit values of `src[0..=j]`: undoes the chaining.
pub open spec fn xor_prefix(src: Seq<u8>, j: int) -> u8
    decreases j + 1,
{
    if j < 0 {
        0
    } else {
        xor_prefix(src, j - 1) ^ read_value(src[j])
    }
}

/// The 256 bytes that a 343-byte 6-and-2 data field decodes to: the high six
/// bits come from value `86 + i`, the low two from value `i % 86`, where
/// `i / 86` says which pair of its bits.
pub open spec fn decode_62(src: Seq<u8>) -> Seq<u8> {
    Seq::new(
        256,
        |i: int|
            ((xor_prefix(src, 86 + i) << 2u8) + rev2(
                (xor_prefix(src, i % 86) >> (2 * (i / 86)) as u8) & 3,
            )) as u8,
    )
}

proof fn lemma_xor_comm(a: u8, b: u8)
    ensures
        a ^ b == b ^ a,
{
    lemma_byte_bits(a, b, 0, 0);
}

proof fn lemma_shr_zero(a: u8)
    ensures
        a >> 0u8 == a,
{
    lemma_byte_bits(a, 0, 0, 0);
}

proof fn lemma_shr_twice(x: u8, s: u8)
    requires
        s <= 6,
    ensures
        (x >> s) >> 2u8 == x >> ((s + 2) as u8),
{
    lemma_byte_bits(x, 0, 0, s);
}

proof fn lemma_read_index_small(x: u8, k: int)
    requires
        k <= 64,
    ensures
        read_index(x, k) < 64,
    decreases k,
{
    if k > 0 && WRITE_TABLE@[k - 1] != x {
        lemma_read_index_small(x, k - 1);
    }
}

proof fn lemma_xor_prefix_small(src: Seq<u8>, j: int)
    ensures
        xor_prefix(src, j) < 64,
    decreases j + 1,
{
    if j >= 0 {
        lemma_xor_prefix_small(src, j - 1);
        lemma_read_index_small(src[j], 64);
        let a = xor_prefix(src, j - 1);
        let b = read_value(src[j]);
        lemma_byte_bits(a, b, 0, 0);
    }
}


/// The 256 bytes of logical sector `sector` in a 4096-byte track image.
pub open spec fn sector_data(bytes: Seq<u8>, sector: int) -> Seq<u8> {
    let start = LOGICAL_SECTORS@[sector] as int * 256;
    bytes.subrange(start, start + 256)
}

/// The bits of the address field of a sector: prologue, volume FE, track,
/// sector, checksum, epilogue, then 7 sync bytes.
pub open spec fn address_field_bits(track: u8, sector: u8) -> Seq<u8> {
    bits_of_bytes(seq![0xd5u8, 0xaa, 0x96]) + bits_of_bytes(four_and_four(0xfe)) + bits_of_bytes(
        four_and_four(track),
    ) + bits_of_bytes(four_and_four(sector)) + bits_of_bytes(four_and_four(0xfe ^ track ^ sector))
        + bits_of_bytes(seq![0xdeu8, 0xaa, 0xeb]) + sync_bits(7)
}

/// The bits of one sector on a track: its address field, then its data field
/// (prologue, the 6-and-2 encoding of its bytes, epilogue) and 16 sync bytes.
pub open spec fn sector_bits(bytes: Seq<u8>, track: u8, sector: u8) -> Seq<u8> {
    address_field_bits(track, sector) + bits_of_bytes(seq![0xd5u8, 0xaa, 0xad]) + bits_of_bytes(
        encode_62(sector_data(bytes, sector as int)),
    ) + bits_of_bytes(seq![0xdeu8, 0xaa, 0xeb]) + sync_bits(16)
}

/// 16 sync bytes, then the first `n` sectors in physical order.
pub open spec fn track_bits_upto(bytes: Seq<u8>, track: u8, n: nat) -> Seq<u8>
    decreases n,
{
    if n == 0 {
        sync_bits(16)
    } else {
        track_bits_upto(bytes, track, (n - 1) as nat) + sector_bits(bytes, track, (n - 1) as u8)
    }
}

/// The bits of a whole track made from a 4096-byte track image.
pub open spec fn encoded_track(bytes: Seq<u8>, track: u8) -> Seq<u8> {
    track_bits_upto(bytes, track, 16)
}

/// The TMAP of a .dsk image: quarter tracks 4t-1, 4t, 4t+1 read track t,
/// the other ones read nothing (0xFF); only the 35 tracks of a .dsk are there.
pub open spec fn dsk_tmap(p: int) -> u8 {
    if p < 2 {
        0
    } else if p <= 137 && p % 4 != 2 {
        ((p + 1) / 4) as u8
    } else {
        0xff
    }
}

/// The map of a .dsk image starts 0, 0, FF, 1, 1, 1, FF, 2, 2, 2 and has no
/// track from quarter-track 138 on; track `t` is read at quarter-track `4t`.
pub proof fn lemma_dsk_tmap_values()
    ensures
        seq![dsk_tmap(0), dsk_tmap(1), dsk_tmap(2), dsk_tmap(3), dsk_tmap(4), dsk_tmap(5), dsk_tmap(6),
            dsk_tmap(7), dsk_tmap(8), dsk_tmap(9)] == seq![0u8, 0, 0xff, 1, 1, 1, 0xff, 2, 2, 2],
        forall|p: int| 138 <= p < MAX_PHASE ==> #[trigger] dsk_tmap(p) == 0xff,
        forall|t: int| 0 <= t < 35 ==> #[trigger] dsk_tmap(4 * t) == t,
{
    assert forall|t: int| 0 <= t < 35 implies #[trigger] dsk_tmap(4 * t) == t by {
        if t > 0 {
            assert((4 * t) % 4 == 0);
            assert((4 * t + 1) / 4 == t);
        }
    }
}

/// Number of whole 4096-byte tracks (at most 35) in a .dsk image of `len` bytes.
pub open spec fn dsk_track_count(len: int) -> int {
    if len / 4096 < 35 {
        len / 4096
    } else {
        35
    }
}

pub struct Dsk {
    pub disk_info: DiskInfo,
    pub bit_streams: BitStreams,
}

impl Dsk {
    /// Decode the 343 disk bytes of a 6-and-2 data field into 256 bytes.
    pub fn decode_6_and_2(source: &[u8]) -> (r: [u8; 256])
        requires
            source@.len() == DATA_FIELD_SIZE,
        ensures
            r@ == decode_62(source@),
    {
        let ghost src = source@;
        let mut read_table: [u8; 256] = [0; 256];
        let mut i: usize = 0;
        while i < 64
            invariant
                i <= 64,
                forall|x: u8| #[trigger] read_table@[x as int] == read_index(x, i as int),
            decreases 64 - i,
        {
            let w = WRITE_TABLE[i];
            read_table[w as usize] = i as u8;
            i += 1;
            assert forall|x: u8| #[trigger] read_table@[x as int] == read_index(x, i as int) by {
                if x != w {
                    assert(read_table@[x as int] == read_index(x, i - 1));
                }
            }
        }
        let mut temp: [u8; 342] = [0; 342];
        let mut current: usize = 0;
        let mut last: u8 = 0;
        let mut i: usize = 341;
        while i > 255
            invariant
                255 <= i <= 341,
                current == 341 - i,
                src == source@,
                src.len() == DATA_FIELD_SIZE,
                forall|x: u8| #[trigger] read_table@[x as int] == read_value(x),
                last == xor_prefix(src, current - 1),
                forall|k: int| i < k <= 341 ==> #[trigger] temp@[k] == xor_prefix(src, 341 - k),
            decreases i,
        {
            let t = read_table[source[current] as usize];
            proof {
                lemma_xor_comm(t, last);
                assert(xor_prefix(src, current as int) == (last ^ t));
            }
            temp[i] = t ^ last;
            last = last ^ t;
            current += 1;
            i -= 1;
        }
        let mut i: usize = 0;
        while i < 256
            invariant
                i <= 256,
                current == 86 + i,
                src == source@,
                src.len() == DATA_FIELD_SIZE,
                forall|x: u8| #[trigger] read_table@[x as int] == read_value(x),
                last == xor_prefix(src, current - 1),
                forall|k: int| 255 < k <= 341 ==> #[trigger] temp@[k] == xor_prefix(src, 341 - k),
                forall|k: int| 0 <= k < i ==> #[trigger] temp@[k] == xor_prefix(src, 86 + k),
            decreases 256 - i,
        {
            let t = read_table[source[current] as usize];
            proof {
                lemma_xor_comm(t, last);
                assert(xor_prefix(src, current as int) == (last ^ t));
            }
            temp[i] = t ^ last;
            last = last ^ t;
            current += 1;
            i += 1;
        }
        proof {
            assert forall|k: int| 255 < k <= 341 implies #[trigger] temp@[k] == xor_prefix(src, 341 - k)
                >> (2 * (0 + (if 341 - k < 0 {
                1int
            } else {
                0int
            }))) as u8 by {
                lemma_shr_zero(temp@[k]);
            }
        }
        let mut result: [u8; 256] = [0; 256];
        let mut p: usize = 341;
        let mut i: usize = 0;
        while i < 256
            invariant
                i <= 256,
                256 <= p <= 341,
                p == 341 - (i % 86),
                src == source@,
                src.len() == DATA_FIELD_SIZE,
                forall|k: int| 0 <= k < 256 ==> #[trigger] temp@[k] == xor_prefix(src, 86 + k),
                forall|k: int|
                    255 < k <= 341 ==> #[trigger] temp@[k] == xor_prefix(src, 341 - k) >> (2 * ((i
                        / 86) as int + (if 341 - k < i % 86 {
                        1int
                    } else {
                        0int
                    }))) as u8,
                forall|k: int| 0 <= k < i ==> #[trigger] result@[k] == decode_62(src)[k],
            decreases 256 - i,
        {
            proof {
                lemma_xor_prefix_small(src, 86 + i);
            }
            let hi = temp[i];
            let tp = temp[p];
            proof {
                lemma_byte_bits(tp, 0, 0, 0);
                lemma_byte_bits(hi, 0, 0, 0);
            }
            let lo = ((tp & 1) << 1u8) + ((tp & 2) >> 1u8);
            let a: u8 = (hi << 2u8) + lo;
            result[i] = a;
            let ghost j = (i % 86) as int;
            proof {
                let x = xor_prefix(src, j);
                let s = (2 * (i / 86)) as u8;
                assert(tp == x >> s);
                lemma_shr_twice(x, s);
                assert(decode_62(src)[i as int] == a);
            }
            temp[p] = tp >> 2u8;
            i += 1;
            if p == 256 {
                p = 341;
            } else {
                p -= 1;
            }
        }
        assert(result@ =~= decode_62(src));
        result
    }

    /// Encode a 4096-byte track image into the bits of a standard DOS 3.3 track.
    #[verifier::rlimit(40)]
    pub fn encode_track(bytes: &[u8], track: u8) -> (r: Vec<u8>)
        requires
            bytes@.len() >= TRACK_SIZE_BYTES,
        ensures
            r@ == encoded_track(bytes@, track),
    {
        let mut result: Vec<u8> = Vec::new();
        Dsk::write_sync(&mut result, 16);
        let mut sector: u8 = 0;
        while sector < 16
            invariant
                sector <= 16,
                bytes@.len() >= TRACK_SIZE_BYTES,
                result@ == track_bits_upto(bytes@, track, sector as nat),
            decreases 16 - sector,
        {
            let ghost before = result@;
            let p1 = vec![0xd5u8, 0xaa, 0x96];
            assert(p1@ =~= seq![0xd5u8, 0xaa, 0x96]);
            Dsk::write8(&mut result, p1);
            Dsk::write_4and4(&mut result, 0xfe);
            Dsk::write_4and4(&mut result, track);
            Dsk::write_4and4(&mut result, sector);
            Dsk::write_4and4(&mut result, 0xfe ^ track ^ sector);
            let e1 = vec![0xdeu8, 0xaa, 0xeb];
            assert(e1@ =~= seq![0xdeu8, 0xaa, 0xeb]);
            Dsk::write8(&mut result, e1);
            Dsk::write_sync(&mut result, 7);
            assert(result@ =~= before + address_field_bits(track, sector));
            let p2 = vec![0xd5u8, 0xaa, 0xad];
            assert(p2@ =~= seq![0xd5u8, 0xaa, 0xad]);
            Dsk::write8(&mut result, p2);
            let start = LOGICAL_SECTORS[sector as usize] as usize * SECTOR_SIZE_BYTES;
            let end = start + SECTOR_SIZE_BYTES;
            proof {
                assert(LOGICAL_SECTORS@[sector as int] < 16) by {
                    assert(LOGICAL_SECTORS@ =~= seq![0u8, 7, 14, 6, 13, 5, 12, 4, 11, 3, 10, 2, 9, 1, 8, 15]);
                }
            }
            let encoded = Dsk::encode_6_and_2(&bytes[start..end]);
            Dsk::write8(&mut result, encoded);
            let e2 = vec![0xdeu8, 0xaa, 0xeb];
            assert(e2@ =~= seq![0xdeu8, 0xaa, 0xeb]);
            Dsk::write8(&mut result, e2);
            Dsk::write_sync(&mut result, 16);
            assert(result@ =~= before + sector_bits(bytes@, track, sector));
            sector += 1;
        }
        result
    }

    /// A .dsk image known only by its path `path`, its tracks not read.
    pub open spec fn is_quick(&self, path: Seq<char>) -> bool {
        &&& self.disk_info.path@ == path
        &&& self.disk_info.name is None
        &&& self.bit_streams.bit_streams@.len() == 0
    }

    /// The image of the .dsk file `path` whose content is `bytes`: its whole
    /// tracks, each encoded as a standard DOS 3.3 track, placed by `dsk_tmap`.
    pub open spec fn loaded_from(&self, path: Seq<char>, bytes: Seq<u8>) -> bool {
        &&& self.bit_streams.bit_streams@.len() == dsk_track_count(bytes.len() as int)
        &&& forall|t: int|
            0 <= t < dsk_track_count(bytes.len() as int) ==> (#[trigger] self.bit_streams.bit_streams@[t]).bits@
                == encoded_track(bytes.subrange(t * 4096, t * 4096 + 4096), t as u8)
                && !self.bit_streams.bit_streams@[t].random
        &&& forall|p: int| 0 <= p < MAX_PHASE ==> #[trigger] self.bit_streams.tmap@[p] == dsk_tmap(p)
        &&& self.bit_streams.random.random
        &&& self.disk_info.path@ == path
        &&& self.disk_info.name is None
        &&& self.disk_info.woz_version == WozVersion::Dsk
    }

    /// A .dsk image known only by its path, its tracks not read.
    pub fn quick(filename: &str) -> (r: Dsk)
        ensures
            r.is_quick(filename@),
            r.disk_info.path@ == filename@,
            r.disk_info.name is None,
            r.bit_streams.bit_streams@.len() == 0,
    {
        Dsk { disk_info: DiskInfo::n(filename), bit_streams: BitStreams::default() }
    }

    /// Build the bit streams of a .dsk image: its 35 tracks, each encoded as a
    /// standard DOS 3.3 track, and the TMAP that places track t under quarter
    /// tracks 4t-1, 4t and 4t+1.
    pub fn bytes_to_bit_streams(filename: &str, bytes: &[u8]) -> (r: Dsk)
        ensures
            r.loaded_from(filename@, bytes@),
            r.bit_streams.bit_streams@.len() == dsk_track_count(bytes@.len() as int),
            forall|t: int|
                0 <= t < dsk_track_count(bytes@.len() as int) ==> (#[trigger] r.bit_streams.bit_streams@[t]).bits@
                    == encoded_track(bytes@.subrange(t * 4096, t * 4096 + 4096), t as u8)
                    && !r.bit_streams.bit_streams@[t].random,
            forall|p: int| 0 <= p < MAX_PHASE ==> #[trigger] r.bit_streams.tmap@[p] == dsk_tmap(p),
            r.bit_streams.random.random,
            r.bit_streams.random.bits@ == seq![0u8],
            r.disk_info.path@ == filename@,
            r.disk_info.name is None,
            r.disk_info.woz_version == WozVersion::Dsk,
    {
        let mut tracks: Vec<BitStream> = Vec::new();
        let mut track: usize = 0;
        while track < MAX_TRACK_DSK
            invariant
                track <= MAX_TRACK_DSK,
                tracks@.len() == (if track * 4096 <= bytes@.len() { track as int } else {
                    bytes@.len() as int / 4096
                }),
                forall|t: int|
                    0 <= t < tracks@.len() ==> (#[trigger] tracks@[t]).bits@ == encoded_track(
                        bytes@.subrange(t * 4096, t * 4096 + 4096),
                        t as u8,
                    ) && !tracks@[t].random,
            decreases MAX_TRACK_DSK - track,
        {
            let start = track * TRACK_SIZE_BYTES;
            let end = start + TRACK_SIZE_BYTES;
            if start < bytes.len() && end <= bytes.len() {
                let slice = &bytes[start..end];
                tracks.push(BitStream::new(Dsk::encode_track(slice, track as u8)));
            }
            track += 1;
        }
        let mut tmap: [u8; MAX_PHASE] = [0xff; MAX_PHASE];
        tmap[0] = 0;
        tmap[1] = 0;
        let mut t: u8 = 1;
        let mut phase: usize = 4;
        while phase < MAX_PHASE - 20
            invariant
                4 <= phase <= 140,
                phase % 4 == 0,
                t as int == phase / 4,
                forall|p: int| 0 <= p < phase - 1 ==> #[trigger] tmap@[p] == dsk_tmap(p),
                forall|p: int| phase - 1 <= p < MAX_PHASE ==> #[trigger] tmap@[p] == 0xff,
            decreases MAX_PHASE - phase,
        {
            tmap[phase - 1] = t;
            tmap[phase] = t;
            if phase + 1 < MAX_PHASE - 1 {
                tmap[phase + 1] = t;
            }
            t += 1;
            phase += 4;
        }
        let mut disk_info = DiskInfo::n(filename);
        disk_info.woz_version = WozVersion::Dsk;
        Dsk { disk_info, bit_streams: BitStreams::new(tracks, tmap, DiskInfo::default()) }
    }

    /// Decode the 4-and-4 pair of disk bytes `a`, `b` into the byte they encode.
    pub fn decode_4_and_4(a: u8, b: u8) -> (r: u8)
        ensures
            r == ((a << 1u8) | 0x55) & (b | 0xaa),
    {
        ((a << 1u8) | 0x55) & (b | 0xaa)
    }

    /// Push the bits of each byte of `values`, most significant bit first.
    pub fn write8(bytes: &mut Vec<u8>, values: Vec<u8>)
        ensures
            final(bytes)@ == old(bytes)@ + bits_of_bytes(values@),
    {
        let mut i: usize = 0;
        while i < values.len()
            invariant
                i <= values@.len(),
                bytes@ == old(bytes)@ + bits_of_bytes(values@.take(i as int)),
            decreases values@.len() - i,
        {
            let value = values[i];
            let ghost before = bytes@;
            let mut it: u8 = 0;
            while it < 8
                invariant
                    it <= 8,
                    bytes@ == before + byte_bits(value).take(it as int),
                decreases 8 - it,
            {
                let shift: u8 = 7 - it;
                let mask: u8 = 1u8 << shift;
                let bit = (value & mask) >> shift;
                proof {
                    lemma_mask_bit(value, shift);
                }
                bytes.push(bit);
                it += 1;
                assert(bytes@ =~= before + byte_bits(value).take(it as int));
            }
            assert(byte_bits(value).take(8) =~= byte_bits(value));
            assert(values@.take(i + 1).drop_last() =~= values@.take(i as int));
            i += 1;
            assert(bytes@ =~= old(bytes)@ + bits_of_bytes(values@.take(i as int)));
        }
        assert(values@.take(values@.len() as int) =~= values@);
    }

    /// Push raw bits, each of which must be 0 or 1.
    pub fn write1(bytes: &mut Vec<u8>, values: Vec<u8>)
        requires
            forall|i: int| 0 <= i < values@.len() ==> #[trigger] values@[i] <= 1,
        ensures
            final(bytes)@ == old(bytes)@ + values@,
    {
        let mut i: usize = 0;
        while i < values.len()
            invariant
                i <= values@.len(),
                forall|k: int| 0 <= k < values@.len() ==> #[trigger] values@[k] <= 1,
                bytes@ == old(bytes)@ + values@.take(i as int),
            decreases values@.len() - i,
        {
            bytes.push(values[i]);
            i += 1;
            assert(bytes@ =~= old(bytes)@ + values@.take(i as int));
        }
        assert(values@.take(values@.len() as int) =~= values@);
    }

    /// Push `count` sync bytes (FF followed by two 0 bits).
    pub fn write_sync(bytes: &mut Vec<u8>, count: u8)
        ensures
            final(bytes)@ == old(bytes)@ + sync_bits(count as nat),
    {
        let mut k: u8 = 0;
        while k < count
            invariant
                k <= count,
                bytes@ == old(bytes)@ + sync_bits(k as nat),
            decreases count - k,
        {
            let ghost before = bytes@;
            let ff = vec![0xffu8];
            assert(ff@ =~= seq![0xffu8]);
            proof {
                lemma_bits_of_one_byte(0xff);
            }
            Dsk::write8(bytes, ff);
            let zeros = vec![0u8, 0u8];
            assert(zeros@ =~= seq![0u8, 0u8]);
            Dsk::write1(bytes, zeros);
            assert(bytes@ =~= before + (byte_bits(0xff) + seq![0u8, 0u8]));
            k += 1;
            assert(sync_bits(k as nat) == sync_bits((k - 1) as nat) + (byte_bits(0xff) + seq![0u8, 0u8]));
            assert(bytes@ =~= old(bytes)@ + sync_bits(k as nat));
        }
    }

    /// Push the 4-and-4 encoding of `value`.
    pub fn write_4and4(bytes: &mut Vec<u8>, value: u8)
        ensures
            final(bytes)@ == old(bytes)@ + bits_of_bytes(four_and_four(value)),
    {
        let v = vec![(value >> 1u8) | 0xaau8, value | 0xaau8];
        assert(v@ =~= four_and_four(value));
        Dsk::write8(bytes, v);
    }

    /// The 6-and-2 encoding of a 256-byte sector: 343 disk bytes.
    pub fn encode_6_and_2(values: &[u8]) -> (r: Vec<u8>)
        requires
            values@.len() >= 256,
        ensures
            r@ == encode_62(values@),
    {
        let ghost v = values@;
        let mut result: Vec<u8> = vec![0u8; DATA_FIELD_SIZE];
        let bit_reverse: [u8; 4] = [0, 2, 1, 3];
        let mut c: usize = 0;
        while c < 84
            invariant
                c <= 84,
                v == values@,
                v.len() >= 256,
                bit_reverse@ == seq![0u8, 2u8, 1u8, 3u8],
                result@.len() == DATA_FIELD_SIZE,
                forall|k: int| 0 <= k < c ==> #[trigger] result@[k] == six_bit_value(v, k),
            decreases 84 - c,
        {
            proof {
                lemma_rev2(v[c as int]);
                lemma_rev2(v[c + 86]);
                lemma_rev2(v[c + 172]);
                lemma_and3(v[c as int]);
                lemma_and3(v[c + 86]);
                lemma_and3(v[c + 172]);
            }
            let b0 = bit_reverse[(values[c] & 3) as usize];
            let b1 = bit_reverse[(values[c + 86] & 3) as usize] << 2u8;
            let b2 = bit_reverse[(values[c + 172] & 3) as usize] << 4u8;
            result.set(c, b0 | b1 | b2);
            c += 1;
        }
        proof {
            lemma_rev2(v[84]);
            lemma_rev2(v[170]);
            lemma_rev2(v[85]);
            lemma_rev2(v[171]);
            lemma_and3(v[84]);
            lemma_and3(v[170]);
            lemma_and3(v[85]);
            lemma_and3(v[171]);
        }
        result.set(84, bit_reverse[(values[84] & 3) as usize] | (bit_reverse[(values[170] & 3) as usize] << 2u8));
        result.set(85, bit_reverse[(values[85] & 3) as usize] | (bit_reverse[(values[171] & 3) as usize] << 2u8));
        let mut c: usize = 0;
        while c < 256
            invariant
                c <= 256,
                v == values@,
                v.len() >= 256,
                result@.len() == DATA_FIELD_SIZE,
                forall|k: int| 0 <= k < 86 + c ==> #[trigger] result@[k] == six_bit_value(v, k),
            decreases 256 - c,
        {
            result.set(86 + c, values[c] >> 2u8);
            c += 1;
        }
        // Exclusive OR each byte with the one before it.
        result.set(342, result[341]);
        let mut location: usize = 342;
        while location > 1
            invariant
                1 <= location <= 342,
                v == values@,
                v.len() >= 256,
                result@.len() == DATA_FIELD_SIZE,
                forall|k: int| 0 <= k < location ==> #[trigger] result@[k] == six_bit_value(v, k),
                forall|k: int| location <= k < 343 ==> #[trigger] result@[k] == chained_value(v, k),
            decreases location,
        {
            location -= 1;
            result.set(location, result[location] ^ result[location - 1]);
        }
        // Map six-bit values up to full bytes
        let mut c: usize = 0;
        while c < 343
            invariant
                c <= 343,
                v == values@,
                v.len() >= 256,
                result@.len() == DATA_FIELD_SIZE,
                forall|k: int| c <= k < 343 ==> #[trigger] result@[k] == chained_value(v, k),
                forall|k: int| 0 <= k < c ==> #[trigger] result@[k] == encode_62(v)[k],
            decreases 343 - c,
        {
            proof {
                lemma_six_bit_small(v, c as int);
            }
            result.set(c, WRITE_TABLE[result[c] as usize]);
            c += 1;
        }
        assert(result@ =~= encode_62(v));
        result
    }
}

} // verus!

verus! {

proof fn lemma_write_table_increasing()
    ensures
        forall|a: int, b: int| 0 <= a < b < 64 ==> WRITE_TABLE@[a] < WRITE_TABLE@[b],
{
    assert(WRITE_TABLE@ =~= seq![
        0x96u8, 0x97, 0x9a, 0x9b, 0x9d, 0x9e, 0x9f, 0xa6,
        0xa7, 0xab, 0xac, 0xad, 0xae, 0xaf, 0xb2, 0xb3,
        0xb4, 0xb5, 0xb6, 0xb7, 0xb9, 0xba, 0xbb, 0xbc,
        0xbd, 0xbe, 0xbf, 0xcb, 0xcd, 0xce, 0xcf, 0xd3,
        0xd6, 0xd7, 0xd9, 0xda, 0xdb, 0xdc, 0xdd, 0xde,
        0xdf, 0xe5, 0xe6, 0xe7, 0xe9, 0xea, 0xeb, 0xec,
        0xed, 0xee, 0xef, 0xf2, 0xf3, 0xf4, 0xf5, 0xf6,
        0xf7, 0xf9, 0xfa, 0xfb, 0xfc, 0xfd, 0xfe, 0xff,
    ]);
}

proof fn lemma_read_value_inverse(y: int, k: int)
    requires
        0 <= y < k <= 64,
    ensures
        read_index(WRITE_TABLE@[y], k) == y,
    decreases k,
{
    lemma_write_table_increasing();
    if k - 1 != y {
        lemma_read_value_inverse(y, k - 1);
    }
}

proof fn lemma_xor_prefix_encoded(v: Seq<u8>, j: int)
    requires
        v.len() >= 256,
        0 <= j <= 341,
    ensures
        xor_prefix(encode_62(v), j) == six_bit_value(v, j),
    decreases j,
{
    let e = encode_62(v);
    lemma_six_bit_small(v, j);
    lemma_read_value_inverse(chained_value(v, j) as int, 64);
    assert(read_value(e[j]) == chained_value(v, j));
    assert(xor_prefix(e, j) == xor_prefix(e, j - 1) ^ read_value(e[j]));
    if j == 0 {
        assert(xor_prefix(e, -1) == 0);
        let a = six_bit_value(v, 0);
        lemma_byte_bits(a, 0, 0, 0);
    } else {
        lemma_xor_prefix_encoded(v, j - 1);
        let a = six_bit_value(v, j - 1);
        let b = six_bit_value(v, j);
        assert(chained_value(v, j) == b ^ a);
        lemma_byte_bits(b, a, 0, 0);
    }
}

proof fn lemma_decoded_byte(v: Seq<u8>, i: int)
    requires
        v.len() >= 256,
        0 <= i < 256,
    ensures
        decode_62(encode_62(v))[i] == v[i],
{
    let e = encode_62(v);
    let j = i % 86;
    let k = i / 86;
    lemma_xor_prefix_encoded(v, 86 + i);
    lemma_xor_prefix_encoded(v, j);
    let x = v[i];
    let hi = six_bit_value(v, 86 + i);
    assert(hi == x >> 2u8);
    let s = six_bit_value(v, j);
    let sh = (2 * k) as u8;
    let low = (s >> sh) & 3;
    lemma_rev2(x);
    assert(low == rev2(x)) by {
        if j < 84 {
            let r0 = rev2(v[j]);
            let r1 = rev2(v[j + 86]);
            let r2 = rev2(v[j + 172]);
            lemma_rev2(v[j]);
            lemma_rev2(v[j + 86]);
            lemma_rev2(v[j + 172]);
            if k == 0 {
                lemma_byte_bits(r0, r1, r2, 0);
            } else if k == 1 {
                lemma_byte_bits(r0, r1, r2, 0);
            } else {
                lemma_byte_bits(r0, r1, r2, 0);
            }
        } else {
            let r0 = rev2(v[j]);
            let r1 = rev2(v[j + 86]);
            lemma_rev2(v[j]);
            lemma_rev2(v[j + 86]);
            if k == 0 {
                lemma_byte_bits(r0, r1, 0, 0);
            } else {
                lemma_byte_bits(r0, r1, 0, 0);
            }
        }
    }
    assert(decode_62(e)[i] == ((hi << 2u8) + rev2(low)) as u8);
    lemma_byte_bits(x, 0, 0, 0);
}

/// The 6-and-2 encoding loses nothing: decoding the 343 disk bytes that
/// `encode_6_and_2` writes for a sector gives the sector's 256 bytes back.
pub proof fn lemma_6_and_2_roundtrip(v: Seq<u8>)
    requires
        v.len() >= 256,
    ensures
        decode_62(encode_62(v)) == v.take(256),
{
    assert forall|i: int| 0 <= i < 256 implies decode_62(encode_62(v))[i] == v.take(256)[i] by {
        lemma_decoded_byte(v, i);
    }
    assert(decode_62(encode_62(v)) =~= v.take(256));
}

/// Decoding the 4-and-4 encoding of a byte gives the byte back.
pub proof fn lemma_4_and_4_roundtrip(v: u8)
    ensures
        ((four_and_four(v)[0] << 1u8) | 0x55) & (four_and_four(v)[1] | 0xaa) == v,
{
    assert(four_and_four(v)[0] == (v >> 1u8) | 0xaa);
    assert(four_and_four(v)[1] == v | 0xaa);
    let a: u8 = (v >> 1u8) | 0xaa;
    let b: u8 = v | 0xaa;
    lemma_byte_bits(v, 0, 0, 0);
}

} // verus!
