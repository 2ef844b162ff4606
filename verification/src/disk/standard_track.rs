use vstd::prelude::*;
use crate::disk::bit_stream::{
    areas_from, byte_bits, count_marker, is_address_prologue, is_data_prologue, is_epilogue, is_standard,
    lemma_nibbles_read_back, lemma_zero_run_bound, nibble_areas, nibble_bits, nibbles_bits, nibbles_from,
    relabel, sync_runs_fit, zero_run, AreaType, Nibble,
};
use crate::disk::dsk::{
    bits_of_bytes, encode_62, encoded_track, four_and_four, lemma_six_bit_small, sector_bits, sector_data,
    sync_bits, track_bits_upto, WRITE_TABLE,
};
use crate::disk::disk_controller::LOGICAL_SECTORS;

verus! {

/// Nibbles without sync bits, one for each of `vs`.
pub open spec fn byte_nibbles(vs: Seq<u8>) -> Seq<Nibble> {
    Seq::new(vs.len(), |k: int| Nibble { value: vs[k], sync_bits: 0, area_type: AreaType::Unknown })
}

/// `n` sync nibbles: FF followed by two 0 bits.
pub open spec fn sync_nibbles(n: nat) -> Seq<Nibble> {
    Seq::new(n, |k: int| Nibble { value: 0xff, sync_bits: 2, area_type: AreaType::Unknown })
}

/// The nibbles of one sector of an encoded track, field by field.
pub open spec fn sector_nibbles(bytes: Seq<u8>, track: u8, sector: u8) -> Seq<Nibble> {
    byte_nibbles(seq![0xd5u8, 0xaa, 0x96]) + byte_nibbles(four_and_four(0xfe)) + byte_nibbles(
        four_and_four(track),
    ) + byte_nibbles(four_and_four(sector)) + byte_nibbles(four_and_four(0xfe ^ track ^ sector))
        + byte_nibbles(seq![0xdeu8, 0xaa, 0xeb]) + sync_nibbles(7) + byte_nibbles(seq![0xd5u8, 0xaa, 0xad])
        + byte_nibbles(encode_62(sector_data(bytes, sector as int))) + byte_nibbles(seq![0xdeu8, 0xaa, 0xeb])
        + sync_nibbles(16)
}

/// 16 sync nibbles, then the nibbles of the first `n` sectors.
pub open spec fn track_nibbles_upto(bytes: Seq<u8>, track: u8, n: nat) -> Seq<Nibble>
    decreases n,
{
    if n == 0 {
        sync_nibbles(16)
    } else {
        track_nibbles_upto(bytes, track, (n - 1) as nat) + sector_nibbles(bytes, track, (n - 1) as u8)
    }
}

proof fn lemma_nibbles_bits_append(a: Seq<Nibble>, b: Seq<Nibble>)
    ensures
        nibbles_bits(a + b) == nibbles_bits(a) + nibbles_bits(b),
    decreases a.len(),
{
    if a.len() == 0 {
        assert(a + b =~= b);
        assert(nibbles_bits(a) =~= Seq::<u8>::empty());
        assert(nibbles_bits(b) =~= Seq::<u8>::empty() + nibbles_bits(b));
    } else {
        assert((a + b).drop_first() =~= a.drop_first() + b);
        assert((a + b)[0] == a[0]);
        lemma_nibbles_bits_append(a.drop_first(), b);
        assert(nibbles_bits(a + b) =~= nibble_bits(a[0]) + (nibbles_bits(a.drop_first()) + nibbles_bits(b)));
        assert(nibbles_bits(a + b) =~= nibbles_bits(a) + nibbles_bits(b));
    }
}

proof fn lemma_one_nibble_bits(n: Nibble)
    ensures
        nibbles_bits(seq![n]) == nibble_bits(n),
{
    assert(seq![n].drop_first() =~= Seq::<Nibble>::empty());
    assert(nibbles_bits(Seq::<Nibble>::empty()) =~= Seq::<u8>::empty());
    assert(nibble_bits(n) + Seq::<u8>::empty() =~= nibble_bits(n));
}

proof fn lemma_byte_nibbles_bits(vs: Seq<u8>)
    ensures
        nibbles_bits(byte_nibbles(vs)) == bits_of_bytes(vs),
    decreases vs.len(),
{
    if vs.len() == 0 {
        assert(nibbles_bits(byte_nibbles(vs)) =~= Seq::<u8>::empty());
    } else {
        let n = Nibble { value: vs.last(), sync_bits: 0, area_type: AreaType::Unknown };
        assert(byte_nibbles(vs) =~= byte_nibbles(vs.drop_last()) + seq![n]);
        lemma_byte_nibbles_bits(vs.drop_last());
        lemma_nibbles_bits_append(byte_nibbles(vs.drop_last()), seq![n]);
        lemma_one_nibble_bits(n);
        assert(nibble_bits(n) =~= byte_bits(vs.last()));
    }
}

proof fn lemma_sync_nibbles_bits(n: nat)
    ensures
        nibbles_bits(sync_nibbles(n)) == sync_bits(n),
    decreases n,
{
    if n == 0 {
        assert(nibbles_bits(sync_nibbles(n)) =~= Seq::<u8>::empty());
    } else {
        let s = Nibble { value: 0xff, sync_bits: 2, area_type: AreaType::Unknown };
        assert(sync_nibbles(n) =~= sync_nibbles((n - 1) as nat) + seq![s]);
        lemma_sync_nibbles_bits((n - 1) as nat);
        lemma_nibbles_bits_append(sync_nibbles((n - 1) as nat), seq![s]);
        lemma_one_nibble_bits(s);
        assert(nibble_bits(s) =~= byte_bits(0xff) + seq![0u8, 0u8]);
    }
}

proof fn lemma_sector_nibbles_bits(bytes: Seq<u8>, track: u8, sector: u8)
    ensures
        nibbles_bits(sector_nibbles(bytes, track, sector)) == sector_bits(bytes, track, sector),
{
    let p1 = byte_nibbles(seq![0xd5u8, 0xaa, 0x96]);
    let p2 = byte_nibbles(four_and_four(0xfe));
    let p3 = byte_nibbles(four_and_four(track));
    let p4 = byte_nibbles(four_and_four(sector));
    let p5 = byte_nibbles(four_and_four(0xfe ^ track ^ sector));
    let p6 = byte_nibbles(seq![0xdeu8, 0xaa, 0xeb]);
    let p7 = sync_nibbles(7);
    let p8 = byte_nibbles(seq![0xd5u8, 0xaa, 0xad]);
    let p9 = byte_nibbles(encode_62(sector_data(bytes, sector as int)));
    let p10 = byte_nibbles(seq![0xdeu8, 0xaa, 0xeb]);
    let p11 = sync_nibbles(16);
    lemma_nibbles_bits_append(p1, p2);
    lemma_nibbles_bits_append(p1 + p2, p3);
    lemma_nibbles_bits_append(p1 + p2 + p3, p4);
    lemma_nibbles_bits_append(p1 + p2 + p3 + p4, p5);
    lemma_nibbles_bits_append(p1 + p2 + p3 + p4 + p5, p6);
    lemma_nibbles_bits_append(p1 + p2 + p3 + p4 + p5 + p6, p7);
    lemma_nibbles_bits_append(p1 + p2 + p3 + p4 + p5 + p6 + p7, p8);
    lemma_nibbles_bits_append(p1 + p2 + p3 + p4 + p5 + p6 + p7 + p8, p9);
    lemma_nibbles_bits_append(p1 + p2 + p3 + p4 + p5 + p6 + p7 + p8 + p9, p10);
    lemma_nibbles_bits_append(p1 + p2 + p3 + p4 + p5 + p6 + p7 + p8 + p9 + p10, p11);
    lemma_byte_nibbles_bits(seq![0xd5u8, 0xaa, 0x96]);
    lemma_byte_nibbles_bits(four_and_four(0xfe));
    lemma_byte_nibbles_bits(four_and_four(track));
    lemma_byte_nibbles_bits(four_and_four(sector));
    lemma_byte_nibbles_bits(four_and_four(0xfe ^ track ^ sector));
    lemma_byte_nibbles_bits(seq![0xdeu8, 0xaa, 0xeb]);
    lemma_sync_nibbles_bits(7);
    lemma_byte_nibbles_bits(seq![0xd5u8, 0xaa, 0xad]);
    lemma_byte_nibbles_bits(encode_62(sector_data(bytes, sector as int)));
    lemma_sync_nibbles_bits(16);
}

proof fn lemma_track_nibbles_bits(bytes: Seq<u8>, track: u8, n: nat)
    requires
        n <= 16,
    ensures
        nibbles_bits(track_nibbles_upto(bytes, track, n)) == track_bits_upto(bytes, track, n),
    decreases n,
{
    if n == 0 {
        lemma_sync_nibbles_bits(16);
    } else {
        lemma_track_nibbles_bits(bytes, track, (n - 1) as nat);
        lemma_nibbles_bits_append(
            track_nibbles_upto(bytes, track, (n - 1) as nat),
            sector_nibbles(bytes, track, (n - 1) as u8),
        );
        lemma_sector_nibbles_bits(bytes, track, (n - 1) as u8);
    }
}

proof fn lemma_four_and_four_bytes(x: u8)
    by (bit_vector)
    ensures
        (x >> 1u8) | 0xaa >= 0x80,
        (x >> 1u8) | 0xaa != 0xd5,
        (x >> 1u8) | 0xaa != 0xde,
        x | 0xaa >= 0x80,
        x | 0xaa != 0xd5,
        x | 0xaa != 0xde,
{
}

proof fn lemma_write_table_bytes()
    ensures
        forall|k: int| 0 <= k < 64 ==> #[trigger] WRITE_TABLE@[k] >= 0x96 && WRITE_TABLE@[k] != 0xd5 && WRITE_TABLE@[k] != 0xaa,
{
    assert(WRITE_TABLE@ =~= seq![
        0x96u8, 0x97, 0x9a, 0x9b, 0x9d, 0x9e, 0x9f, 0xa6,
        0xa7, 0xab, 0xac, 0xad, 0xae, 0xaf, 0xb2, 0xb3,
        0xb4, 0xb5, 0xb6, 0xb7, 0xb9, 0xba, 0xbb, 0xbc,
        0xbd, 0xbe, 0xbf, 0xcb, 0xcd, 0xce, 0xcf, 0xd3,
        0xd6, 0xd7, 0xd9, 0xda, 0xdb, 0xdc, 0xdd, 0xde,
        0xdf, 0xe5, 0xe6, 0xe7, 0xe9, 0xea, 0xeb, 0xec,
        0xed, 0xee, 0xef, 0xf2, 0xf3, 0xf4, 0xf5, 0xf6,
        0xf7, 0xf9, 0xfa, 0xfb, 0xfc, 0xfd, 0xfe, 0xff,
    ]);
}

proof fn lemma_data_bytes(bytes: Seq<u8>, sector: u8)
    requires
        bytes.len() >= 4096,
        sector < 16,
    ensures
        encode_62(sector_data(bytes, sector as int)).len() == 343,
        forall|c: int|
            0 <= c < 343 ==> #[trigger] encode_62(sector_data(bytes, sector as int))[c] >= 0x96
                && encode_62(sector_data(bytes, sector as int))[c] != 0xd5
                && encode_62(sector_data(bytes, sector as int))[c] != 0xaa,
{
    assert(LOGICAL_SECTORS@ =~= seq![0u8, 7, 14, 6, 13, 5, 12, 4, 11, 3, 10, 2, 9, 1, 8, 15]);
    assert(LOGICAL_SECTORS@[sector as int] < 16);
    let v = sector_data(bytes, sector as int);
    assert(v.len() == 256);
    lemma_write_table_bytes();
    assert forall|c: int| 0 <= c < 343 implies #[trigger] encode_62(v)[c] >= 0x96 && encode_62(v)[c] != 0xd5
        && encode_62(v)[c] != 0xaa by {
        lemma_six_bit_small(v, c);
    }
}

/// The first 24 nibbles of a sector: address field, sync nibbles, data
/// prologue.
pub open spec fn sector_head(track: u8, sector: u8) -> Seq<Nibble> {
    byte_nibbles(seq![0xd5u8, 0xaa, 0x96]) + byte_nibbles(four_and_four(0xfe)) + byte_nibbles(
        four_and_four(track),
    ) + byte_nibbles(four_and_four(sector)) + byte_nibbles(four_and_four(0xfe ^ track ^ sector))
        + byte_nibbles(seq![0xdeu8, 0xaa, 0xeb]) + sync_nibbles(7) + byte_nibbles(seq![0xd5u8, 0xaa, 0xad])
}

#[verifier::spinoff_prover]
#[verifier::rlimit(40)]
proof fn lemma_head_layout(track: u8, sector: u8)
    ensures
        ({
            let h = sector_head(track, sector);
            &&& h.len() == 24
            &&& forall|o: int|
                0 <= o < 24 ==> (#[trigger] h[o]).area_type == AreaType::Unknown && h[o].value >= 0x80
                    && h[o].sync_bits == (if 14 <= o < 21 { 2u16 } else { 0u16 })
            &&& h[0].value == 0xd5 && h[1].value == 0xaa && h[2].value == 0x96
            &&& forall|o: int| 3 <= o < 11 ==> (#[trigger] h[o]).value != 0xd5 && h[o].value != 0xde
            &&& h[11].value == 0xde && h[12].value == 0xaa && h[13].value == 0xeb
            &&& forall|o: int| 14 <= o < 21 ==> (#[trigger] h[o]).value == 0xff
            &&& h[21].value == 0xd5 && h[22].value == 0xaa && h[23].value == 0xad
        }),
{
    let a = byte_nibbles(seq![0xd5u8, 0xaa, 0x96]);
    let b = byte_nibbles(four_and_four(0xfe) + four_and_four(track) + four_and_four(sector) + four_and_four(
        0xfe ^ track ^ sector,
    ));
    let c = byte_nibbles(seq![0xdeu8, 0xaa, 0xeb]);
    let d = sync_nibbles(7);
    let e = byte_nibbles(seq![0xd5u8, 0xaa, 0xad]);
    let h = sector_head(track, sector);
    assert(h =~= a + b + c + d + e);
    lemma_four_and_four_bytes(0xfe);
    lemma_four_and_four_bytes(track);
    lemma_four_and_four_bytes(sector);
    lemma_four_and_four_bytes(0xfe ^ track ^ sector);
    assert forall|o: int| 0 <= o < 24 implies (#[trigger] h[o]).area_type == AreaType::Unknown && h[o].value
        >= 0x80 && h[o].sync_bits == (if 14 <= o < 21 { 2u16 } else { 0u16 }) && (3 <= o < 11 ==> h[o].value
        != 0xd5 && h[o].value != 0xde) && (14 <= o < 21 ==> h[o].value == 0xff) by {
        if o < 3 {
            assert(h[o] == a[o]);
        } else if o < 11 {
            assert(h[o] == b[o - 3]);
        } else if o < 14 {
            assert(h[o] == c[o - 11]);
        } else if o < 21 {
            assert(h[o] == d[o - 14]);
        } else {
            assert(h[o] == e[o - 21]);
        }
    }
    assert(h[0] == a[0] && h[1] == a[1] && h[2] == a[2]);
    assert(h[11] == c[0] && h[12] == c[1] && h[13] == c[2]);
    assert(h[21] == e[0] && h[22] == e[1] && h[23] == e[2]);
}

/// The layout of the nibbles of a sector: where its markers stand, and what
/// the nibbles between them can hold.
#[verifier::spinoff_prover]
#[verifier::rlimit(40)]
proof fn lemma_sector_layout(bytes: Seq<u8>, track: u8, sector: u8)
    requires
        bytes.len() >= 4096,
        sector < 16,
    ensures
        ({
            let sn = sector_nibbles(bytes, track, sector);
            &&& sn.len() == 386
            &&& forall|o: int|
                0 <= o < 386 ==> (#[trigger] sn[o]).area_type == AreaType::Unknown && sn[o].value >= 0x80
                    && sn[o].sync_bits == (if (14 <= o < 21 || 370 <= o) { 2u16 } else { 0u16 })
            &&& sn[0].value == 0xd5 && sn[1].value == 0xaa && sn[2].value == 0x96
            &&& forall|o: int| 3 <= o < 11 ==> (#[trigger] sn[o]).value != 0xd5 && sn[o].value != 0xde
            &&& sn[11].value == 0xde && sn[12].value == 0xaa && sn[13].value == 0xeb
            &&& forall|o: int| 14 <= o < 21 ==> (#[trigger] sn[o]).value == 0xff
            &&& sn[21].value == 0xd5 && sn[22].value == 0xaa && sn[23].value == 0xad
            &&& forall|o: int| 24 <= o < 367 ==> (#[trigger] sn[o]).value != 0xd5 && sn[o].value != 0xaa
            &&& sn[367].value == 0xde && sn[368].value == 0xaa && sn[369].value == 0xeb
            &&& forall|o: int| 370 <= o < 386 ==> (#[trigger] sn[o]).value == 0xff
        }),
{
    let head = sector_head(track, sector);
    let data = encode_62(sector_data(bytes, sector as int));
    let p9 = byte_nibbles(data);
    let p10 = byte_nibbles(seq![0xdeu8, 0xaa, 0xeb]);
    let p11 = sync_nibbles(16);
    let sn = sector_nibbles(bytes, track, sector);
    lemma_head_layout(track, sector);
    lemma_data_bytes(bytes, sector);
    assert(sn == head + p9 + p10 + p11);
    assert forall|o: int| 0 <= o < 386 implies (#[trigger] sn[o]).area_type == AreaType::Unknown && sn[o].value
        >= 0x80 && sn[o].sync_bits == (if (14 <= o < 21 || 370 <= o) { 2u16 } else { 0u16 }) by {
        if o < 24 {
            assert(sn[o] == head[o]);
        } else if o < 367 {
            assert(sn[o] == p9[o - 24]);
        } else if o < 370 {
            assert(sn[o] == p10[o - 367]);
        } else {
            assert(sn[o] == p11[o - 370]);
        }
    }
    assert forall|o: int| 3 <= o < 11 implies (#[trigger] sn[o]).value != 0xd5 && sn[o].value != 0xde by {
        assert(sn[o] == head[o]);
    }
    assert forall|o: int| 14 <= o < 21 implies (#[trigger] sn[o]).value == 0xff by {
        assert(sn[o] == head[o]);
    }
    assert forall|o: int| 24 <= o < 367 implies (#[trigger] sn[o]).value != 0xd5 && sn[o].value != 0xaa by {
        assert(sn[o] == p9[o - 24]);
    }
    assert forall|o: int| 370 <= o < 386 implies (#[trigger] sn[o]).value == 0xff by {
        assert(sn[o] == p11[o - 370]);
    }
    assert(sn[0] == head[0] && sn[1] == head[1] && sn[2] == head[2]);
    assert(sn[11] == head[11] && sn[12] == head[12] && sn[13] == head[13]);
    assert(sn[21] == head[21] && sn[22] == head[22] && sn[23] == head[23]);
    assert(sn[367] == p10[0] && sn[368] == p10[1] && sn[369] == p10[2]);
}

/// The nibbles of a whole track encoded from a 4096-byte track image.
pub open spec fn track_nibbles(bytes: Seq<u8>, track: u8) -> Seq<Nibble> {
    track_nibbles_upto(bytes, track, 16)
}

proof fn lemma_track_at(bytes: Seq<u8>, track: u8, n: nat, k: int)
    requires
        bytes.len() >= 4096,
        n <= 16,
        0 <= k < n,
    ensures
        track_nibbles_upto(bytes, track, n).len() == 16 + 386 * n,
        forall|o: int|
            0 <= o < 386 ==> track_nibbles_upto(bytes, track, n)[16 + 386 * k + o] == #[trigger] sector_nibbles(
                bytes,
                track,
                k as u8,
            )[o],
    decreases n,
{
    lemma_track_len(bytes, track, n);
    let prev = track_nibbles_upto(bytes, track, (n - 1) as nat);
    lemma_track_len(bytes, track, (n - 1) as nat);
    if k < n - 1 {
        lemma_track_at(bytes, track, (n - 1) as nat, k);
        assert forall|o: int| 0 <= o < 386 implies track_nibbles_upto(bytes, track, n)[16 + 386 * k + o]
            == #[trigger] sector_nibbles(bytes, track, k as u8)[o] by {
            assert(16 + 386 * k + o < prev.len());
        }
    } else {
        lemma_sector_layout(bytes, track, k as u8);
    }
}

proof fn lemma_track_len(bytes: Seq<u8>, track: u8, n: nat)
    requires
        bytes.len() >= 4096,
        n <= 16,
    ensures
        track_nibbles_upto(bytes, track, n).len() == 16 + 386 * n,
        forall|o: int|
            0 <= o < 16 ==> #[trigger] track_nibbles_upto(bytes, track, n)[o] == (Nibble {
                value: 0xff,
                sync_bits: 2,
                area_type: AreaType::Unknown,
            }),
    decreases n,
{
    if n > 0 {
        lemma_track_len(bytes, track, (n - 1) as nat);
        lemma_sector_layout(bytes, track, (n - 1) as u8);
        let prev = track_nibbles_upto(bytes, track, (n - 1) as nat);
        assert forall|o: int| 0 <= o < 16 implies #[trigger] track_nibbles_upto(bytes, track, n)[o] == prev[o] by {}
    }
}

/// Every nibble of an encoded track has its high bit set, no or two sync
/// bits, and no area yet.
proof fn lemma_track_plain(bytes: Seq<u8>, track: u8)
    requires
        bytes.len() >= 4096,
    ensures
        track_nibbles(bytes, track).len() == 6192,
        forall|j: int|
            0 <= j < track_nibbles(bytes, track).len() ==> (#[trigger] track_nibbles(bytes, track)[j]).value
                >= 0x80 && track_nibbles(bytes, track)[j].sync_bits != 1 && track_nibbles(bytes, track)[j].sync_bits
                <= 2 && track_nibbles(bytes, track)[j].area_type == AreaType::Unknown,
{
    let t = track_nibbles(bytes, track);
    lemma_track_len(bytes, track, 16);
    assert forall|j: int| 0 <= j < t.len() implies (#[trigger] t[j]).value >= 0x80 && t[j].sync_bits != 1
        && t[j].sync_bits <= 2 && t[j].area_type == AreaType::Unknown by {
        if j >= 16 {
            let k = (j - 16) / 386;
            let o = (j - 16) % 386;
            assert(j == 16 + 386 * k + o);
            lemma_track_at(bytes, track, 16, k);
            lemma_sector_layout(bytes, track, k as u8);
            assert(t[j] == sector_nibbles(bytes, track, k as u8)[o]);
        }
    }
}

/// The nibbles of `ns`, all placed in area `t`.
pub open spec fn relabel_all(ns: Seq<Nibble>, t: AreaType) -> Seq<Nibble> {
    Seq::new(ns.len(), |k: int| relabel(ns[k], t))
}

/// No marker starts at `k`.
pub open spec fn no_marker(ns: Seq<Nibble>, k: int) -> bool {
    &&& !is_address_prologue(ns, k)
    &&& !is_data_prologue(ns, k)
    &&& !is_epilogue(ns, k)
}

proof fn lemma_areas_run(ns: Seq<Nibble>, i: int, j: int, cur: AreaType)
    requires
        0 <= i <= j <= ns.len(),
        forall|k: int| i <= k < j ==> #[trigger] no_marker(ns, k),
    ensures
        areas_from(ns, i, cur) == relabel_all(ns.subrange(i, j), cur) + areas_from(ns, j, cur),
    decreases j - i,
{
    if i == j {
        assert(relabel_all(ns.subrange(i, j), cur) + areas_from(ns, j, cur) =~= areas_from(ns, j, cur));
    } else {
        assert(no_marker(ns, i));
        lemma_areas_run(ns, i + 1, j, cur);
        assert(areas_from(ns, i, cur) == seq![relabel(ns[i], cur)] + areas_from(ns, i + 1, cur));
        assert(relabel_all(ns.subrange(i, j), cur) =~= seq![relabel(ns[i], cur)] + relabel_all(
            ns.subrange(i + 1, j),
            cur,
        ));
        assert(seq![relabel(ns[i], cur)] + (relabel_all(ns.subrange(i + 1, j), cur) + areas_from(ns, j, cur))
            =~= (seq![relabel(ns[i], cur)] + relabel_all(ns.subrange(i + 1, j), cur)) + areas_from(ns, j, cur));
    }
}

proof fn lemma_count_append(a: Seq<Nibble>, b: Seq<Nibble>, t: AreaType, v: u8)
    ensures
        count_marker(a + b, t, v) == count_marker(a, t, v) + count_marker(b, t, v),
    decreases b.len(),
{
    if b.len() == 0 {
        assert(a + b =~= a);
    } else {
        assert((a + b).drop_last() =~= a + b.drop_last());
        lemma_count_append(a, b.drop_last(), t, v);
    }
}

proof fn lemma_count_none(x: Seq<Nibble>, c: AreaType, t: AreaType, v: u8)
    requires
        c != t || forall|k: int| 0 <= k < x.len() ==> #[trigger] x[k].value != v,
    ensures
        count_marker(relabel_all(x, c), t, v) == 0,
    decreases x.len(),
{
    if x.len() > 0 {
        assert(relabel_all(x, c).drop_last() =~= relabel_all(x.drop_last(), c));
        lemma_count_none(x.drop_last(), c, t, v);
    }
}

/// The area types and values that a standard track counts 16 of.
pub open spec fn counted(t: AreaType, v: u8) -> bool {
    ||| t == AreaType::AddressPrologue && v == 0xd5
    ||| t == AreaType::AddressEpilogue && v == 0xde
    ||| t == AreaType::DataPrologue && v == 0xd5
    ||| t == AreaType::DataEpilogue && v == 0xde
}

proof fn lemma_count_last(x: Seq<Nibble>, c: AreaType, t: AreaType, v: u8)
    requires
        x.len() > 0,
    ensures
        count_marker(relabel_all(x, c), t, v) == count_marker(relabel_all(x.drop_last(), c), t, v) + (if c == t
            && x.last().value == v {
            1int
        } else {
            0
        }),
{
    assert(relabel_all(x, c).drop_last() =~= relabel_all(x.drop_last(), c));
}

/// A marker of `n` nibbles (2 or 3) at `i`, placed in area `m`, counts once for
/// its first value and area, and not at all for the other counted ones.
proof fn lemma_marker_count(ns: Seq<Nibble>, i: int, n: int, m: AreaType, t: AreaType, v: u8)
    requires
        0 <= i,
        2 <= n <= 3,
        i + n <= ns.len(),
        counted(m, ns[i].value),
        counted(t, v),
        ns[i + 1].value == 0xaa,
        n == 3 ==> ns[i + 2].value != 0xd5 && ns[i + 2].value != 0xde,
    ensures
        count_marker(relabel_all(ns.subrange(i, i + n), m), t, v) == (if t == m && v == ns[i].value {
            1int
        } else {
            0
        }),
{
    let x = ns.subrange(i, i + n);
    lemma_count_last(x, m, t, v);
    lemma_count_last(x.drop_last(), m, t, v);
    if n == 3 {
        lemma_count_last(x.drop_last().drop_last(), m, t, v);
        assert(x.drop_last().drop_last().drop_last().len() == 0);
    } else {
        assert(x.drop_last().drop_last().len() == 0);
    }
    assert(relabel_all(Seq::<Nibble>::empty(), m) =~= Seq::<Nibble>::empty());
}

/// The areas of the sector that starts at nibble `16 + 386 * k` of an encoded
/// track hold one address prologue, one address epilogue, one data prologue
/// and one data epilogue.
#[verifier::spinoff_prover]
#[verifier::rlimit(80)]
proof fn lemma_sector_areas_count(bytes: Seq<u8>, track: u8, k: int, t: AreaType, v: u8)
    requires
        bytes.len() >= 4096,
        0 <= k < 16,
        counted(t, v),
    ensures
        count_marker(areas_from(track_nibbles(bytes, track), 16 + 386 * k, AreaType::Unknown), t, v) == 1
            + count_marker(areas_from(track_nibbles(bytes, track), 16 + 386 * k + 386, AreaType::Unknown), t, v),
{
    let tn = track_nibbles(bytes, track);
    let s = 16 + 386 * k;
    lemma_track_at(bytes, track, 16, k);
    lemma_sector_layout(bytes, track, k as u8);
    let sn = sector_nibbles(bytes, track, k as u8);
    assert(tn.len() == 6192);
    assert forall|o: int| 0 <= o < 386 implies tn[s + o] == #[trigger] sn[o] by {}
    assert(tn[s] == sn[0] && tn[s + 1] == sn[1] && tn[s + 2] == sn[2]);
    assert(tn[s + 11] == sn[11] && tn[s + 12] == sn[12] && tn[s + 13] == sn[13]);
    assert(tn[s + 21] == sn[21] && tn[s + 22] == sn[22] && tn[s + 23] == sn[23]);
    assert(tn[s + 367] == sn[367] && tn[s + 368] == sn[368] && tn[s + 369] == sn[369]);
    let ap = AreaType::AddressPrologue;
    let ac = AreaType::AddressContent;
    let ae = AreaType::AddressEpilogue;
    let dp = AreaType::DataPrologue;
    let dc = AreaType::DataContent;
    let de = AreaType::DataEpilogue;
    let un = AreaType::Unknown;
    // the address prologue
    assert(is_address_prologue(tn, s));
    let a1 = seq![relabel(tn[s], ap), relabel(tn[s + 1], ap), relabel(tn[s + 2], ap)];
    assert(areas_from(tn, s, un) == a1 + areas_from(tn, s + 3, ac));
    assert(a1 =~= relabel_all(tn.subrange(s, s + 3), ap));
    lemma_count_append(a1, areas_from(tn, s + 3, ac), t, v);
    lemma_marker_count(tn, s, 3, ap, t, v);
    // the address field's content
    assert forall|j: int| s + 3 <= j < s + 11 implies #[trigger] no_marker(tn, j) by {
        assert(tn[j] == sn[j - s]);
    }
    lemma_areas_run(tn, s + 3, s + 11, ac);
    lemma_count_append(relabel_all(tn.subrange(s + 3, s + 11), ac), areas_from(tn, s + 11, ac), t, v);
    lemma_count_none(tn.subrange(s + 3, s + 11), ac, t, v);
    // the address epilogue
    assert(!is_address_prologue(tn, s + 11) && !is_data_prologue(tn, s + 11) && is_epilogue(tn, s + 11));
    let a2 = seq![relabel(tn[s + 11], ae), relabel(tn[s + 12], ae)];
    assert(areas_from(tn, s + 11, ac) == a2 + areas_from(tn, s + 13, un));
    assert(a2 =~= relabel_all(tn.subrange(s + 11, s + 13), ae));
    lemma_count_append(a2, areas_from(tn, s + 13, un), t, v);
    lemma_marker_count(tn, s + 11, 2, ae, t, v);
    // the end of the address field and the sync nibbles after it
    assert forall|j: int| s + 13 <= j < s + 21 implies #[trigger] no_marker(tn, j) by {
        assert(tn[j] == sn[j - s]);
    }
    lemma_areas_run(tn, s + 13, s + 21, un);
    lemma_count_append(relabel_all(tn.subrange(s + 13, s + 21), un), areas_from(tn, s + 21, un), t, v);
    lemma_count_none(tn.subrange(s + 13, s + 21), un, t, v);
    // the data prologue
    assert(!is_address_prologue(tn, s + 21) && is_data_prologue(tn, s + 21));
    let a3 = seq![relabel(tn[s + 21], dp), relabel(tn[s + 22], dp), relabel(tn[s + 23], dp)];
    assert(areas_from(tn, s + 21, un) == a3 + areas_from(tn, s + 24, dc));
    assert(a3 =~= relabel_all(tn.subrange(s + 21, s + 24), dp));
    lemma_count_append(a3, areas_from(tn, s + 24, dc), t, v);
    lemma_marker_count(tn, s + 21, 3, dp, t, v);
    // the data
    assert forall|j: int| s + 24 <= j < s + 367 implies #[trigger] no_marker(tn, j) by {
        assert(tn[j] == sn[j - s]);
        assert(tn[j + 1] == sn[j + 1 - s]);
    }
    lemma_areas_run(tn, s + 24, s + 367, dc);
    lemma_count_append(relabel_all(tn.subrange(s + 24, s + 367), dc), areas_from(tn, s + 367, dc), t, v);
    lemma_count_none(tn.subrange(s + 24, s + 367), dc, t, v);
    // the data epilogue
    assert(!is_address_prologue(tn, s + 367) && !is_data_prologue(tn, s + 367) && is_epilogue(tn, s + 367));
    let a4 = seq![relabel(tn[s + 367], de), relabel(tn[s + 368], de)];
    assert(areas_from(tn, s + 367, dc) == a4 + areas_from(tn, s + 369, un));
    assert(a4 =~= relabel_all(tn.subrange(s + 367, s + 369), de));
    lemma_count_append(a4, areas_from(tn, s + 369, un), t, v);
    lemma_marker_count(tn, s + 367, 2, de, t, v);
    // the end of the data field and the sync nibbles after it
    assert forall|j: int| s + 369 <= j < s + 386 implies #[trigger] no_marker(tn, j) by {
        assert(tn[j] == sn[j - s]);
    }
    lemma_areas_run(tn, s + 369, s + 386, un);
    lemma_count_append(relabel_all(tn.subrange(s + 369, s + 386), un), areas_from(tn, s + 386, un), t, v);
    lemma_count_none(tn.subrange(s + 369, s + 386), un, t, v);
}

proof fn lemma_track_count(bytes: Seq<u8>, track: u8, k: int, t: AreaType, v: u8)
    requires
        bytes.len() >= 4096,
        0 <= k <= 16,
        counted(t, v),
    ensures
        count_marker(areas_from(track_nibbles(bytes, track), 16 + 386 * k, AreaType::Unknown), t, v) == 16 - k,
    decreases 16 - k,
{
    if k == 16 {
        lemma_track_len(bytes, track, 16);
        assert(areas_from(track_nibbles(bytes, track), 16 + 386 * k, AreaType::Unknown) =~= Seq::<Nibble>::empty());
    } else {
        lemma_track_count(bytes, track, k + 1, t, v);
        lemma_sector_areas_count(bytes, track, k, t, v);
        assert(16 + 386 * k + 386 == 16 + 386 * (k + 1));
    }
}

proof fn lemma_nibbles_bits_len(ns: Seq<Nibble>)
    requires
        forall|k: int| 0 <= k < ns.len() ==> (#[trigger] ns[k]).sync_bits <= 2,
    ensures
        nibbles_bits(ns).len() <= 10 * ns.len(),
    decreases ns.len(),
{
    if ns.len() > 0 {
        assert forall|k: int| 0 <= k < ns.drop_first().len() implies (#[trigger] ns.drop_first()[k]).sync_bits
            <= 2 by {
            assert(ns.drop_first()[k] == ns[k + 1]);
        }
        lemma_nibbles_bits_len(ns.drop_first());
        assert(ns[0].sync_bits <= 2);
    }
}

/// A track encoded from a .dsk image is a standard one: reading its bits back
/// finds 16 address fields and 16 data fields, each with its prologue and its
/// epilogue (so `analyze_track` finds a stream of these bits Standard), and no
/// run of 0 bits in it is too long to be counted.
pub proof fn lemma_encoded_track_is_standard(bytes: Seq<u8>, track: u8)
    requires
        bytes.len() >= 4096,
    ensures
        sync_runs_fit(encoded_track(bytes, track)),
        is_standard(nibble_areas(nibbles_from(encoded_track(bytes, track), 0))),
{
    let tn = track_nibbles(bytes, track);
    let bits = encoded_track(bytes, track);
    lemma_track_plain(bytes, track);
    lemma_track_len(bytes, track, 16);
    lemma_track_nibbles_bits(bytes, track, 16);
    assert(nibbles_bits(tn) == bits);
    lemma_nibbles_read_back(tn);
    assert(nibbles_from(bits, 0) == tn);
    // no run of 0 bits is longer than the track
    lemma_nibbles_bits_len(tn);
    assert forall|i: int| 0 <= i < bits.len() implies #[trigger] zero_run(bits, i) <= u16::MAX by {
        lemma_zero_run_bound(bits, i);
    }
    // the 16 sync nibbles at the start hold no marker
    assert forall|j: int| 0 <= j < 16 implies #[trigger] no_marker(tn, j) by {
        assert(tn[j].value == 0xff);
    }
    lemma_areas_run(tn, 0, 16, AreaType::Unknown);
    assert(nibble_areas(tn) == areas_from(tn, 0, AreaType::Unknown));
    let start = relabel_all(tn.subrange(0, 16), AreaType::Unknown);
    let pairs = seq![
        (AreaType::AddressPrologue, 0xd5u8),
        (AreaType::AddressEpilogue, 0xdeu8),
        (AreaType::DataPrologue, 0xd5u8),
        (AreaType::DataEpilogue, 0xdeu8),
    ];
    assert forall|p: int| 0 <= p < 4 implies #[trigger] count_marker(nibble_areas(tn), pairs[p].0, pairs[p].1)
        == 16 by {
        let (t, v) = pairs[p];
        lemma_count_append(start, areas_from(tn, 16, AreaType::Unknown), t, v);
        lemma_count_none(tn.subrange(0, 16), AreaType::Unknown, t, v);
        lemma_track_count(bytes, track, 0, t, v);
    }
    assert(count_marker(nibble_areas(tn), pairs[0].0, pairs[0].1) == 16);
    assert(count_marker(nibble_areas(tn), pairs[1].0, pairs[1].1) == 16);
    assert(count_marker(nibble_areas(tn), pairs[2].0, pairs[2].1) == 16);
    assert(count_marker(nibble_areas(tn), pairs[3].0, pairs[3].1) == 16);
}

} // verus!
