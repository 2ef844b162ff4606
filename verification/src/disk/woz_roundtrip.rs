use vstd::prelude::*;
use crate::disk::bit_stream::BitStream;
use crate::disk::woz::{
    Woz, WozWalk, WozOutcome, woz_track_bits, woz_streams, streams_view, woz_panics, woz_fails, woz_loaded, woz_outcome, woz_walk, woz_chunk, woz_walk_start, woz_magic_rejects, woz_info_bytes, woz_tracks_bytes, trks_entries, trks_data, WOZ_CREATOR, le32_bytes, le16_bytes, le32, le16,
    lemma_le32_roundtrip, lemma_entries_len, track_start_block, track_block_count, pack_bits, pad_512,
    lemma_start_block_grows,
};
use crate::text::{low_bytes, latin1};
use crate::disk::bit_stream::shift_in;
use crate::disk::woz::{pack_byte, bytes_bits};
use crate::misc::bit_of;

verus! {

proof fn lemma_info_bytes()
    ensures
        woz_info_bytes().len() == 80,
        woz_info_bytes()[0] == 0x57,
        woz_info_bytes()[1] == 0x4f,
        woz_info_bytes()[4] == 0xff,
        woz_info_bytes().subrange(12, 16) == low_bytes("INFO"@),
        woz_info_bytes()[20] == 2,
        woz_info_bytes()[22] == 1,
{
    reveal_strlit("WOZ2");
    reveal_strlit("INFO");
    reveal_strlit("Maple-2, by Cédric Beust        ");
    assert(WOZ_CREATOR@.len() == 32);
    let i = woz_info_bytes();
    assert(le32_bytes(60).len() == 4);
    assert(le16_bytes(0).len() == 2);
    assert(le16_bytes(0xd).len() == 2);
    assert(i.len() == 80);
    assert(i.subrange(12, 16) =~= low_bytes("INFO"@));
}

/// The four-character names of the chunks read back as themselves.
proof fn lemma_chunk_names()
    ensures
        latin1(low_bytes("INFO"@)) == "INFO"@,
        latin1(low_bytes("TMAP"@)) == "TMAP"@,
        latin1(low_bytes("TRKS"@)) == "TRKS"@,
        low_bytes("TMAP"@).len() == 4,
        low_bytes("TRKS"@).len() == 4,
        "TMAP"@ != "INFO"@,
        "TRKS"@ != "INFO"@,
        "TRKS"@ != "TMAP"@,
{
    reveal_strlit("INFO");
    reveal_strlit("TMAP");
    reveal_strlit("TRKS");
    assert(latin1(low_bytes("INFO"@)) =~= "INFO"@);
    assert(latin1(low_bytes("TMAP"@)) =~= "TMAP"@);
    assert(latin1(low_bytes("TRKS"@)) =~= "TRKS"@);
    assert("TMAP"@[1] != "INFO"@[1]);
    assert("TRKS"@[1] != "INFO"@[1]);
    assert("TRKS"@[1] != "TMAP"@[1]);
}

/// A little-endian number is read back from where it was written.
proof fn lemma_le32_at(bytes: Seq<u8>, i: int, v: u32)
    requires
        0 <= i,
        i + 4 <= bytes.len(),
        bytes.subrange(i, i + 4) == le32_bytes(v),
    ensures
        le32(bytes, i) == v,
{
    lemma_le32_roundtrip(v);
    let b = le32_bytes(v);
    assert(bytes[i] == b[0] && bytes[i + 1] == b[1] && bytes[i + 2] == b[2] && bytes[i + 3] == b[3]) by {
        assert(bytes.subrange(i, i + 4)[0] == bytes[i]);
        assert(bytes.subrange(i, i + 4)[1] == bytes[i + 1]);
        assert(bytes.subrange(i, i + 4)[2] == bytes[i + 2]);
        assert(bytes.subrange(i, i + 4)[3] == bytes[i + 3]);
    }
}

/// A little-endian 16-bit number is read back from where it was written.
proof fn lemma_le16_at(bytes: Seq<u8>, i: int, v: u16)
    requires
        0 <= i,
        i + 2 <= bytes.len(),
        bytes.subrange(i, i + 2) == le16_bytes(v),
    ensures
        le16(bytes, i) == v,
{
    let b0 = (v & 0xff) as u8;
    let b1 = ((v & 0xff00) >> 8u16) as u8;
    assert(bytes[i] == b0 && bytes[i + 1] == b1) by {
        assert(bytes.subrange(i, i + 2)[0] == bytes[i]);
        assert(bytes.subrange(i, i + 2)[1] == bytes[i + 1]);
    }
    assert((b0 as u16 | ((b1 as u16) << 8u16)) as u16 == v) by (bit_vector)
        requires
            b0 == (v & 0xff) as u8,
            b1 == ((v & 0xff00) >> 8u16) as u8,
    ;
}

/// Where the parts of a WOZ file written by `woz_file_1` then `woz_file_2` are.
proof fn lemma_layout(tmap: Seq<u8>, streams: Seq<BitStream>)
    requires
        tmap.len() == 160,
        80 + 176 + 8 * streams.len() <= 0x600,
        0x600 + trks_data(streams, streams.len() as int).len() <= u32::MAX,
    ensures
        ({
            let bytes = woz_tracks_bytes(woz_info_bytes(), tmap, streams);
            let n = streams.len() as int;
            let d = trks_data(streams, n);
            &&& bytes.len() == 0x600 + d.len()
            &&& bytes[0] == 0x57 && bytes[1] == 0x4f && bytes[4] == 0xff
            &&& bytes.subrange(12, 16) == low_bytes("INFO"@)
            &&& bytes[20] == 2 && bytes[22] == 1
            &&& bytes.subrange(80, 84) == low_bytes("TMAP"@)
            &&& bytes.subrange(88, 248) == tmap
            &&& bytes.subrange(248, 252) == low_bytes("TRKS"@)
            &&& le32(bytes, 252) == 0x600 + d.len() - 256
            &&& bytes.subrange(256, 256 + 8 * n) == trks_entries(streams, n)
            &&& bytes.subrange(0x600, 0x600 + d.len() as int) == d
        }),
{
    lemma_info_bytes();
    lemma_chunk_names();
    let n = streams.len() as int;
    lemma_entries_len(streams, n);
    let info = woz_info_bytes();
    let head = info + low_bytes("TMAP"@) + le32_bytes(160) + tmap + low_bytes("TRKS"@);
    let table = trks_entries(streams, n);
    let data = trks_data(streams, n);
    let size = (0x600 + data.len() - head.len() - 4) as u32;
    let zeros = Seq::new((0x600 - head.len() - 4 - table.len()) as nat, |i: int| 0u8);
    let bytes = woz_tracks_bytes(info, tmap, streams);
    assert(head.len() == 252);
    assert(bytes == head + le32_bytes(size) + table + zeros + data);
    assert(bytes.len() == 0x600 + data.len());
    assert(bytes.subrange(12, 16) =~= info.subrange(12, 16));
    assert(bytes.subrange(80, 84) =~= low_bytes("TMAP"@));
    assert(bytes.subrange(88, 248) =~= tmap);
    assert(bytes.subrange(248, 252) =~= low_bytes("TRKS"@));
    assert(bytes.subrange(252, 256) =~= le32_bytes(size));
    lemma_le32_at(bytes, 252, size);
    assert(bytes.subrange(256, 256 + 8 * n) =~= table);
    assert(bytes.subrange(0x600, 0x600 + data.len() as int) =~= data);
}

/// Entry `t` of the TRKS table: first block, block count, bit count.
proof fn lemma_entry(streams: Seq<BitStream>, n: int, t: int)
    requires
        0 <= t < n <= streams.len(),
    ensures
        trks_entries(streams, n).subrange(8 * t, 8 * t + 8) == le16_bytes(track_start_block(streams, t) as u16)
            + le16_bytes(track_block_count(streams[t].bits@.len() as int) as u16) + le32_bytes(
            streams[t].bits@.len() as u32,
        ),
    decreases n,
{
    lemma_entries_len(streams, n - 1);
    lemma_entries_len(streams, n);
    let e = trks_entries(streams, n - 1);
    let len = streams[n - 1].bits@.len() as int;
    let last = le16_bytes(track_start_block(streams, n - 1) as u16) + le16_bytes(track_block_count(len) as u16)
        + le32_bytes(len as u32);
    assert(trks_entries(streams, n) == e + last);
    if t == n - 1 {
        assert(trks_entries(streams, n).subrange(8 * t, 8 * t + 8) =~= last);
    } else {
        lemma_entry(streams, n - 1, t);
        assert(trks_entries(streams, n).subrange(8 * t, 8 * t + 8) =~= e.subrange(8 * t, 8 * t + 8));
    }
}

/// The bytes that the packed bits of a track take once padded to a block:
/// one block more than its whole blocks of 4096 bits, when it does not end
/// on a block.
proof fn lemma_padded(len: int)
    requires
        len >= 0,
        len % 4096 != 0,
    ensures
        ({
            let p = (len + 7) / 8;
            p + pad_512(p) == 512 * (len / 4096 + 1)
        }),
{
    let p = (len + 7) / 8;
    let q = len / 4096;
    let r = len % 4096;
    assert(p == 512 * q + (r + 7) / 8 && 1 <= (r + 7) / 8 <= 512) by (nonlinear_arith)
        requires
            len >= 0,
            q == len / 4096,
            r == len % 4096,
            r != 0,
            p == (len + 7) / 8,
    ;
    assert(p + pad_512(p) == 512 * (q + 1)) by (nonlinear_arith)
        requires
            p == 512 * q + (r + 7) / 8,
            1 <= (r + 7) / 8 <= 512,
            q >= 0,
            pad_512(p) == (if p % 512 == 0 { 0 } else { 512 - p % 512 }),
    ;
}

/// What the tracks need for their table to say where their bits are: no
/// track ends on a block of 4096 bits, and its block count fits in 16 bits.
pub open spec fn blocks_consistent(streams: Seq<BitStream>, n: int) -> bool {
    forall|k: int|
        0 <= k < n ==> #[trigger] streams[k].bits@.len() % 4096 != 0 && streams[k].bits@.len() / 4096 + 1
            <= u16::MAX
}

/// With consistent blocks, the data of the first `m` tracks fills the blocks
/// that the table gives them, and the data of track `t` starts with its
/// packed bits.
proof fn lemma_data(streams: Seq<BitStream>, m: int, t: int)
    requires
        0 <= t < m <= streams.len(),
        blocks_consistent(streams, m),
    ensures
        trks_data(streams, m).len() == (track_start_block(streams, m) - 3) * 512,
        trks_data(streams, m).subrange(
            (track_start_block(streams, t) - 3) * 512,
            (track_start_block(streams, t) - 3) * 512 + pack_bits(streams[t].bits@).len(),
        ) == pack_bits(streams[t].bits@),
        trks_data(streams, m).len() >= (track_start_block(streams, t) - 3) * 512 + pack_bits(
            streams[t].bits@,
        ).len() + pad_512(pack_bits(streams[t].bits@).len() as int),
    decreases m,
{
    let len = streams[m - 1].bits@.len() as int;
    let p = pack_bits(streams[m - 1].bits@);
    lemma_padded(len);
    assert(track_block_count(len) == len / 4096 + 1);
    let prev = trks_data(streams, m - 1);
    let z = Seq::new(pad_512(p.len() as int), |i: int| 0u8);
    assert(trks_data(streams, m) == prev + p + z);
    if m - 1 > 0 {
        lemma_data(streams, m - 1, 0);
    }
    assert(prev.len() == (track_start_block(streams, m - 1) - 3) * 512);
    if t == m - 1 {
        assert(trks_data(streams, m).subrange(prev.len() as int, (prev.len() + p.len()) as int) =~= p);
    } else {
        lemma_data(streams, m - 1, t);
        let a = (track_start_block(streams, t) - 3) * 512;
        assert(a + pack_bits(streams[t].bits@).len() <= prev.len());
        lemma_start_block_grows(streams, 0, t);
        assert(a >= 0);
        assert(trks_data(streams, m).subrange(a, a + pack_bits(streams[t].bits@).len()) =~= prev.subrange(
            a,
            a + pack_bits(streams[t].bits@).len(),
        ));
    }
}

proof fn lemma_shift_in_bits(a: u8, b: u8, m: u8)
    by (bit_vector)
    ensures
        b <= 1 ==> bit_of(shift_in(a, b), 0) == b,
        m < 7 && b <= 1 ==> bit_of(shift_in(a, b), (m + 1) as u8) == bit_of(a, m),
{
}

/// Bit `n - 1 - j` of the byte packed from the `n` bits at `s` is the bit at
/// `s + j`.
proof fn lemma_pack_byte_bit(bits: Seq<u8>, s: int, n: nat, j: int)
    requires
        0 <= j < n <= 8,
        0 <= s,
        s + j < bits.len(),
        forall|k: int| 0 <= k < bits.len() ==> #[trigger] bits[k] <= 1,
    ensures
        bit_of(pack_byte(bits, s, n), (n - 1 - j) as u8) == bits[s + j],
    decreases n,
{
    let prev = pack_byte(bits, s, (n - 1) as nat);
    let b = if s + n - 1 < bits.len() { bits[s + n - 1] } else { 0 };
    assert(pack_byte(bits, s, n) == shift_in(prev, b));
    assert(b <= 1);
    if j == n - 1 {
        lemma_shift_in_bits(prev, b, 0);
    } else {
        lemma_pack_byte_bit(bits, s, (n - 1) as nat, j);
        lemma_shift_in_bits(prev, b, (n - 2 - j) as u8);
    }
}

/// Unpacking packed bits gives them back.
proof fn lemma_unpack(bits: Seq<u8>, bytes: Seq<u8>)
    requires
        forall|k: int| 0 <= k < bits.len() ==> #[trigger] bits[k] <= 1,
        bytes.len() >= pack_bits(bits).len(),
        bytes.subrange(0, pack_bits(bits).len() as int) == pack_bits(bits),
    ensures
        bytes_bits(bytes, bits.len()) == bits,
{
    let p = pack_bits(bits);
    assert forall|k: int| 0 <= k < bits.len() implies #[trigger] bytes_bits(bytes, bits.len())[k] == bits[k] by {
        let q = k / 8;
        let j = k % 8;
        assert(q < p.len());
        assert(bytes[q] == bytes.subrange(0, p.len() as int)[q]);
        assert(bytes[q] == pack_byte(bits, 8 * q, 8));
        lemma_pack_byte_bit(bits, 8 * q, 8, j);
        assert(8 * q + j == k);
    }
    assert(bytes_bits(bytes, bits.len()) =~= bits);
}

/// The walk through the chunks of a file written by `woz_file_1` then
/// `woz_file_2`: INFO, TMAP, then TRKS, which ends the file.
pub open spec fn written_walk(tmap: Seq<u8>, streams: Seq<BitStream>) -> WozWalk {
    WozWalk {
        i: 0x600 + trks_data(streams, streams.len() as int).len() as int,
        done: false,
        version: 2,
        write_protected: true,
        tmap: tmap,
        v1: None,
        v2: Some(256),
        meta: Seq::empty(),
    }
}

#[verifier::spinoff_prover]
#[verifier::rlimit(40)]
proof fn lemma_walk(tmap: Seq<u8>, streams: Seq<BitStream>)
    requires
        tmap.len() == 160,
        80 + 176 + 8 * streams.len() <= 0x600,
        0x600 + trks_data(streams, streams.len() as int).len() <= u32::MAX,
    ensures
        woz_outcome(woz_tracks_bytes(woz_info_bytes(), tmap, streams), false) == WozOutcome::Walked(
            written_walk(tmap, streams),
        ),
{
    lemma_layout(tmap, streams);
    lemma_chunk_names();
    let bytes = woz_tracks_bytes(woz_info_bytes(), tmap, streams);
    let d = trks_data(streams, streams.len() as int).len() as int;
    assert(woz_magic_rejects(bytes) == Some(false));
    let w0 = woz_walk_start();
    let w1 = WozWalk { i: 80, done: false, version: 2, write_protected: true, ..w0 };
    let w2 = WozWalk { i: 248, tmap: tmap, ..w1 };
    let w3 = written_walk(tmap, streams);
    assert(latin1(bytes.subrange(12, 16)) == "INFO"@);
    assert(woz_chunk(bytes, w0, false) == Some(w1));
    assert(latin1(bytes.subrange(80, 84)) == "TMAP"@);
    assert(woz_chunk(bytes, w1, false) == Some(w2));
    assert(latin1(bytes.subrange(248, 252)) == "TRKS"@);
    assert(woz_chunk(bytes, w2, false) == Some(w3));
    assert(woz_walk(bytes, w2, false) == Some(w3));
    assert(woz_walk(bytes, w1, false) == Some(w3));
    assert(woz_walk(bytes, w0, false) == Some(w3));
}

/// What the law of saving and loading needs of the tracks saved, beyond what
/// `woz_file_2` asks: each track's block count fits in 16 bits and matches
/// the blocks its bits fill (its length is not a multiple of 4096 bits), the
/// last track's packed bits do not end on a 512-byte boundary (the reader
/// leaves out the file's last byte), and every bit is 0 or 1.
pub open spec fn tracks_read_back(streams: Seq<BitStream>) -> bool {
    let n = streams.len() as int;
    &&& blocks_consistent(streams, n)
    &&& n > 0 ==> ((streams[n - 1].bits@.len() + 7) / 8) % 512 != 0
    &&& forall|k: int, i: int|
        0 <= k < n && 0 <= i < streams[k].bits@.len() ==> #[trigger] streams[k].bits@[i] <= 1
}

/// The file's facts that reading a track rests on (see `lemma_layout`).
pub open spec fn laid_out(bytes: Seq<u8>, streams: Seq<BitStream>) -> bool {
    let n = streams.len() as int;
    let d = trks_data(streams, n);
    &&& bytes.len() == 0x600 + d.len()
    &&& bytes.subrange(256, 256 + 8 * n) == trks_entries(streams, n)
    &&& bytes.subrange(0x600, 0x600 + d.len() as int) == d
}

/// The entry of track `t` gives its first block and its bit count.
proof fn lemma_read_entry(bytes: Seq<u8>, streams: Seq<BitStream>, t: int)
    requires
        laid_out(bytes, streams),
        streams.len() <= 160,
        track_start_block(streams, streams.len() as int) <= u16::MAX,
        blocks_consistent(streams, streams.len() as int),
        0 <= t < streams.len(),
    ensures
        le16(bytes, 256 + 8 * t) == track_start_block(streams, t),
        le32(bytes, 256 + 8 * t + 4) == streams[t].bits@.len(),
{
    let n = streams.len() as int;
    lemma_entries_len(streams, n);
    lemma_entry(streams, n, t);
    lemma_start_block_grows(streams, 0, t);
    lemma_start_block_grows(streams, t, n);
    let st = track_start_block(streams, t);
    let len_t = streams[t].bits@.len() as int;
    let e = 256 + 8 * t;
    let entries = trks_entries(streams, n);
    let entry = entries.subrange(8 * t, 8 * t + 8);
    assert(bytes.subrange(e, e + 2) =~= entry.subrange(0, 2)) by {
        assert forall|i: int| 0 <= i < 2 implies bytes.subrange(e, e + 2)[i] == entry.subrange(0, 2)[i] by {
            assert(bytes.subrange(256, 256 + 8 * n)[8 * t + i] == bytes[e + i]);
        }
    }
    assert(entry.subrange(0, 2) =~= le16_bytes(st as u16));
    lemma_le16_at(bytes, e, st as u16);
    assert(bytes.subrange(e + 4, e + 8) =~= entry.subrange(4, 8)) by {
        assert forall|i: int| 0 <= i < 4 implies bytes.subrange(e + 4, e + 8)[i] == entry.subrange(4, 8)[i] by {
            assert(bytes.subrange(256, 256 + 8 * n)[8 * t + 4 + i] == bytes[e + 4 + i]);
        }
    }
    assert(entry.subrange(4, 8) =~= le32_bytes(len_t as u32));
    assert(len_t / 4096 + 1 <= u16::MAX);
    lemma_le32_at(bytes, e + 4, len_t as u32);
}

/// The packed bits of track `t` lie at its first block and end before the
/// last byte of the file.
proof fn lemma_track_data(bytes: Seq<u8>, streams: Seq<BitStream>, t: int)
    requires
        laid_out(bytes, streams),
        tracks_read_back(streams),
        0 <= t < streams.len(),
    ensures
        ({
            let start = track_start_block(streams, t) * 512;
            let p = pack_bits(streams[t].bits@);
            &&& start + p.len() + 1 <= bytes.len()
            &&& bytes.subrange(start, bytes.len() - 1).subrange(0, p.len() as int) == p
        }),
{
    let n = streams.len() as int;
    let bits = streams[t].bits@;
    let len_t = bits.len() as int;
    lemma_data(streams, n, t);
    lemma_start_block_grows(streams, 0, t);
    let d = trks_data(streams, n);
    let st = track_start_block(streams, t);
    let start = st * 512;
    let a = (st - 3) * 512;
    let p = pack_bits(bits);
    lemma_padded(len_t);
    if t < n - 1 {
        lemma_data(streams, n, t + 1);
        lemma_padded(streams[t + 1].bits@.len() as int);
        assert(track_start_block(streams, t + 1) == st + track_block_count(len_t));
    }
    assert(a + p.len() + 1 <= d.len());
    let sub = bytes.subrange(start, bytes.len() - 1);
    assert(sub.subrange(0, p.len() as int) =~= p) by {
        assert forall|i: int| 0 <= i < p.len() implies sub.subrange(0, p.len() as int)[i] == p[i] by {
            assert(bytes.subrange(0x600, 0x600 + d.len() as int)[a + i] == bytes[start + i]);
            assert(d.subrange(a, a + p.len())[i] == d[a + i]);
        }
    }
}

/// Track `t` reads back from the file as its bits.
proof fn lemma_track_bits(bytes: Seq<u8>, tmap: Seq<u8>, streams: Seq<BitStream>, t: int)
    requires
        laid_out(bytes, streams),
        streams.len() <= 160,
        track_start_block(streams, streams.len() as int) <= u16::MAX,
        tracks_read_back(streams),
        0 <= t < streams.len(),
    ensures
        woz_track_bits(bytes, written_walk(tmap, streams), t) == Some(streams[t].bits@),
{
    let bits = streams[t].bits@;
    lemma_read_entry(bytes, streams, t);
    lemma_track_data(bytes, streams, t);
    let start = track_start_block(streams, t) * 512;
    let p = pack_bits(bits);
    let sub = bytes.subrange(start, bytes.len() - 1);
    assert forall|k: int| 0 <= k < bits.len() implies #[trigger] bits[k] <= 1 by {
        assert(streams[t].bits@[k] <= 1);
    }
    lemma_unpack(bits, sub);
    assert(bits.len() <= (bytes.len() - 1 - start) * 8) by (nonlinear_arith)
        requires
            p.len() == (bits.len() + 7) / 8,
            start + p.len() <= bytes.len() - 1,
    ;
}

/// The number of tracks that the map names before quarter track `p`, each
/// new one being the next number.
pub open spec fn distinct_count(tmap: Seq<u8>, p: int) -> int
    decreases p,
{
    if p <= 0 {
        0
    } else {
        let c = distinct_count(tmap, p - 1);
        if tmap[p - 1] != 0xff && tmap[p - 1] as int == c {
            c + 1
        } else {
            c
        }
    }
}

/// The map names tracks 0, 1, 2... in the order of the first quarter track
/// of each (as the tracks of a file that was read are numbered).
pub open spec fn map_in_order(tmap: Seq<u8>) -> bool {
    forall|p: int| 0 <= p < 160 ==> #[trigger] tmap[p] == 0xff || tmap[p] as int <= distinct_count(tmap, p)
}

/// The track numbers below `c`.
pub open spec fn numbers_below(c: int) -> Set<u8> {
    Set::new(|t: u8| (t as int) < c)
}

proof fn lemma_count_grows(tmap: Seq<u8>, p: int, q: int)
    requires
        0 <= p <= q,
    ensures
        distinct_count(tmap, p) <= distinct_count(tmap, q),
        distinct_count(tmap, p) >= 0,
    decreases q - p,
{
    if p < q {
        lemma_count_grows(tmap, p, q - 1);
    } else {
        lemma_count_nonneg(tmap, p);
    }
}

proof fn lemma_count_nonneg(tmap: Seq<u8>, p: int)
    ensures
        distinct_count(tmap, p) >= 0,
    decreases p,
{
    if p > 0 {
        lemma_count_nonneg(tmap, p - 1);
    }
}

/// From quarter track `p` on, the tracks are read back in order.
proof fn lemma_streams_from(bytes: Seq<u8>, tmap: Seq<u8>, streams: Seq<BitStream>, p: int)
    requires
        laid_out(bytes, streams),
        streams.len() <= 160,
        track_start_block(streams, streams.len() as int) <= u16::MAX,
        tracks_read_back(streams),
        tmap.len() == 160,
        map_in_order(tmap),
        distinct_count(tmap, 160) == streams.len(),
        0 <= p <= 160,
    ensures
        woz_streams(bytes, written_walk(tmap, streams), p, numbers_below(distinct_count(tmap, p))) == Some(
            Ok::<Seq<Seq<u8>>, ()>(streams_view(streams).subrange(distinct_count(tmap, p), streams.len() as int)),
        ),
    decreases 160 - p,
{
    let n = streams.len() as int;
    let w = written_walk(tmap, streams);
    let c = distinct_count(tmap, p);
    lemma_count_grows(tmap, p, 160);
    if p == 160 {
        assert(streams_view(streams).subrange(n, n) =~= Seq::<Seq<u8>>::empty());
    } else {
        lemma_streams_from(bytes, tmap, streams, p + 1);
        lemma_count_grows(tmap, p + 1, 160);
        let t = tmap[p];
        if t == 0xff || numbers_below(c).contains(t) {
            assert(distinct_count(tmap, p + 1) == c);
        } else {
            assert(t as int == c);
            assert(distinct_count(tmap, p + 1) == c + 1);
            lemma_track_bits(bytes, tmap, streams, t as int);
            assert(numbers_below(c).insert(t) =~= numbers_below(c + 1));
            assert(seq![streams[t as int].bits@] + streams_view(streams).subrange(c + 1, n) =~= streams_view(
                streams,
            ).subrange(c, n));
        }
    }
}

/// What is read from a file laid out as `woz_file_2` writes it, whose chunks
/// walk as `written_walk` says.
proof fn lemma_read_back(bytes: Seq<u8>, tmap: Seq<u8>, streams: Seq<BitStream>)
    requires
        tmap.len() == 160,
        streams.len() <= 160,
        track_start_block(streams, streams.len() as int) <= u16::MAX,
        tracks_read_back(streams),
        map_in_order(tmap),
        distinct_count(tmap, 160) == streams.len(),
        laid_out(bytes, streams),
        woz_outcome(bytes, false) == WozOutcome::Walked(written_walk(tmap, streams)),
    ensures
        !woz_panics(bytes, false),
        !woz_fails(bytes, false),
        forall|name: Seq<char>, woz: Woz|
            #[trigger] woz_loaded(bytes, false, name, woz) ==> streams_view(woz.bit_streams.bit_streams@)
                == streams_view(streams) && woz.bit_streams.tmap@ == tmap,
{
    let n = streams.len() as int;
    lemma_streams_from(bytes, tmap, streams, 0);
    assert(numbers_below(0) =~= Set::<u8>::empty());
    assert(streams_view(streams).subrange(0, n) =~= streams_view(streams));
}

/// A disk saved in the WOZ format reads back: the file that `woz_file_1` then
/// `woz_file_2` write for the tracks `streams` under the quarter-track map
/// `tmap` is read by `Woz::new` with neither a panic nor an error, into the
/// same map and the same bits for each track. This holds when the map names
/// its tracks in order and names them all, and the tracks are as
/// `tracks_read_back` says (on other tracks the file's table of blocks, or the
/// reader's leaving out of the last byte, loses bits).
#[verifier::spinoff_prover]
#[verifier::rlimit(40)]
pub proof fn lemma_woz_save_then_load(tmap: Seq<u8>, streams: Seq<BitStream>)
    requires
        tmap.len() == 160,
        80 + 176 + 8 * streams.len() <= 0x600,
        track_start_block(streams, streams.len() as int) <= u16::MAX,
        tracks_read_back(streams),
        map_in_order(tmap),
        distinct_count(tmap, 160) == streams.len(),
    ensures
        !woz_panics(woz_tracks_bytes(woz_info_bytes(), tmap, streams), false),
        !woz_fails(woz_tracks_bytes(woz_info_bytes(), tmap, streams), false),
        forall|name: Seq<char>, woz: Woz|
            #[trigger] woz_loaded(woz_tracks_bytes(woz_info_bytes(), tmap, streams), false, name, woz)
                ==> streams_view(woz.bit_streams.bit_streams@) == streams_view(streams) && woz.bit_streams.tmap@
                == tmap,
{
    lemma_data_bound(streams);
    lemma_walk(tmap, streams);
    lemma_laid_out(tmap, streams);
    lemma_read_back(woz_tracks_bytes(woz_info_bytes(), tmap, streams), tmap, streams);
}

proof fn lemma_data_bound(streams: Seq<BitStream>)
    requires
        track_start_block(streams, streams.len() as int) <= u16::MAX,
        tracks_read_back(streams),
    ensures
        0x600 + trks_data(streams, streams.len() as int).len() <= u32::MAX,
{
    let n = streams.len() as int;
    if n > 0 {
        lemma_data(streams, n, 0);
    }
}

proof fn lemma_laid_out(tmap: Seq<u8>, streams: Seq<BitStream>)
    requires
        tmap.len() == 160,
        80 + 176 + 8 * streams.len() <= 0x600,
        0x600 + trks_data(streams, streams.len() as int).len() <= u32::MAX,
    ensures
        laid_out(woz_tracks_bytes(woz_info_bytes(), tmap, streams), streams),
{
    lemma_layout(tmap, streams);
}

} // verus!
