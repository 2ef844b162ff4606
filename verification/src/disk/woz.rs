use vstd::prelude::*;
use vstd::string::{StrSliceExecFns, StringExecFns};
use vstd::prelude::Ghost;
use crate::disk::bit_stream::{BitStream, BitStreams};
use crate::disk::disk_info::{DiskInfo, WozVersion};
use crate::disk::disk_controller::MAX_PHASE;
use crate::misc::{bit, bit_of};
use crate::text::{latin1, latin1_string, low_bytes};

verus! {

/// Size in bytes of a track's bit buffer in a WOZ1 file.
pub const TRACK_SIZE_V1: usize = 6646;

/// Value of the little-endian 16-bit number at `i`.
pub open spec fn le16(bytes: Seq<u8>, i: int) -> u16 {
    (bytes[i] as u16 | ((bytes[i + 1] as u16) << 8u16)) as u16
}

/// Value of the little-endian 32-bit number at `i`.
pub open spec fn le32(bytes: Seq<u8>, i: int) -> u32 {
    (bytes[i] as u32 | ((bytes[i + 1] as u32) << 8u32) | ((bytes[i + 2] as u32) << 16u32) | ((
    bytes[i + 3] as u32) << 24u32)) as u32
}

/// The four bytes of `v`, least significant first.
pub open spec fn le32_bytes(v: u32) -> Seq<u8> {
    seq![(v & 0xff) as u8, ((v & 0xff00) >> 8u32) as u8, ((v & 0xff0000) >> 16u32) as u8, ((v
        & 0xff000000) >> 24u32) as u8]
}

/// The two bytes of `v`, least significant first.
pub open spec fn le16_bytes(v: u16) -> Seq<u8> {
    seq![(v & 0xff) as u8, ((v & 0xff00) >> 8u16) as u8]
}

/// The first `bit_count` bits of `bytes`, each byte most significant bit first.
pub open spec fn bytes_bits(bytes: Seq<u8>, bit_count: nat) -> Seq<u8> {
    Seq::new(bit_count, |k: int| bit_of(bytes[k / 8], (7 - k % 8) as u8))
}

/// Reading a little-endian number back gives what was written.
pub proof fn lemma_le32_roundtrip(v: u32)
    ensures
        le32(le32_bytes(v), 0) == v,
{
    let b = le32_bytes(v);
    let b0 = (v & 0xff) as u8;
    let b1 = ((v & 0xff00) >> 8u32) as u8;
    let b2 = ((v & 0xff0000) >> 16u32) as u8;
    let b3 = ((v & 0xff000000) >> 24u32) as u8;
    assert(b[0] == b0 && b[1] == b1 && b[2] == b2 && b[3] == b3);
    assert((b0 as u32 | ((b1 as u32) << 8u32) | ((b2 as u32) << 16u32) | ((b3 as u32) << 24u32))
        == v) by (bit_vector)
        requires
            b0 == (v & 0xff) as u8,
            b1 == ((v & 0xff00) >> 8u32) as u8,
            b2 == ((v & 0xff0000) >> 16u32) as u8,
            b3 == ((v & 0xff000000) >> 24u32) as u8,
    ;
}

/// `read32` gives back what `push_32` wrote: wherever the four bytes of `v`
/// stand in a buffer, the little-endian number read there is `v`.
pub proof fn lemma_read32_inverts_push_32(bytes: Seq<u8>, k: int, v: u32)
    requires
        0 <= k,
        k + 4 <= bytes.len(),
        bytes.subrange(k, k + 4) == le32_bytes(v),
    ensures
        le32(bytes, k) == v,
{
    let b = le32_bytes(v);
    assert(bytes[k] == b[0] && bytes[k + 1] == b[1] && bytes[k + 2] == b[2] && bytes[k + 3] == b[3]) by {
        assert(bytes[k] == bytes.subrange(k, k + 4)[0]);
        assert(bytes[k + 1] == bytes.subrange(k, k + 4)[1]);
        assert(bytes[k + 2] == bytes.subrange(k, k + 4)[2]);
        assert(bytes[k + 3] == bytes.subrange(k, k + 4)[3]);
    }
    assert(le32(bytes, k) == le32(b, 0));
    lemma_le32_roundtrip(v);
}

/// `read16` gives back what `push_16` wrote: wherever the two bytes of `v`
/// stand in a buffer, the little-endian number read there is `v`.
pub proof fn lemma_read16_inverts_push_16(bytes: Seq<u8>, k: int, v: u16)
    requires
        0 <= k,
        k + 2 <= bytes.len(),
        bytes.subrange(k, k + 2) == le16_bytes(v),
    ensures
        le16(bytes, k) == v,
{
    let b0 = (v & 0xff) as u8;
    let b1 = ((v & 0xff00) >> 8u16) as u8;
    assert(bytes[k] == b0 && bytes[k + 1] == b1) by {
        assert(bytes[k] == bytes.subrange(k, k + 2)[0]);
        assert(bytes[k + 1] == bytes.subrange(k, k + 2)[1]);
    }
    assert((b0 as u16 | ((b1 as u16) << 8u16)) as u16 == v) by (bit_vector)
        requires
            b0 == (v & 0xff) as u8,
            b1 == ((v & 0xff00) >> 8u16) as u8,
    ;
}

/// Where a WOZ1 track lies in the file, and how its bits are laid out.
pub struct TracksV1 {
    pub file_offset: usize,
    /// size TRACK_SIZE_V1
    pub byte_stream: Vec<u8>,
    pub bytes_used: u16,
    pub bit_count: u16,
    pub splice_point: u16,
    pub splice_nibble: u8,
    pub splice_bit_count: u8,
}

/// Where a WOZ2 track lies in the file.
#[derive(Clone, Copy)]
pub struct Tracks {
    pub starting_block: u16,
    pub block_count: u16,
    pub bit_count: u32,
}

/// What the INFO chunk says.
#[derive(Clone, Copy)]
pub struct InfoChunk {
    /// 1 or 2, 0 if the chunk was not read
    pub version: u8,
    pub write_protected: bool,
}

/// A WOZ disk image.
pub struct Woz {
    pub disk_info: DiskInfo,
    /// Read position in the file while parsing
    pub i: usize,
    pub tmap: [u8; MAX_PHASE],
    pub tracks: (Option<Vec<TracksV1>>, Option<Vec<Tracks>>),
    pub bit_streams: BitStreams,
    pub meta: Vec<(String, String)>,
    pub info_chunk: InfoChunk,
}

impl Woz {
    /// All fields but the read position are those of `other`.
    pub open spec fn same_except_i(&self, other: Woz) -> bool {
        *self == (Woz { i: self.i, ..other })
    }

    pub fn title(&self) -> (r: Option<String>)
        ensures
            r == crate::disk::disk_info::lookup(self.meta@, "title"@),
    {
        let title = String::from_str("title");
        crate::disk::disk_info::lookup_key(&self.meta, &title)
    }

    pub fn version(&self) -> (r: u8)
        ensures
            r == self.info_chunk.version,
    {
        self.info_chunk.version
    }

    pub fn is_write_protected(&self) -> (r: bool)
        ensures
            r == self.info_chunk.write_protected,
    {
        self.info_chunk.write_protected
    }

    pub fn skip(&mut self, n: usize)
        requires
            old(self).i + n <= usize::MAX,
        ensures
            final(self).i == old(self).i + n,
            final(self).same_except_i(*old(self)),
    {
        self.i += n;
    }

    pub fn read8(&mut self, bytes: &[u8]) -> (r: u8)
        requires
            old(self).i < bytes@.len(),
        ensures
            r == bytes@[old(self).i as int],
            final(self).i == old(self).i + 1,
            final(self).same_except_i(*old(self)),
    {
        let result = bytes[self.i];
        self.i += 1;
        result
    }

    pub fn read16(&mut self, bytes: &[u8]) -> (r: u16)
        requires
            old(self).i + 2 <= bytes@.len(),
        ensures
            r == le16(bytes@, old(self).i as int),
            final(self).i == old(self).i + 2,
            final(self).same_except_i(*old(self)),
    {
        let result = bytes[self.i] as u16 | ((bytes[self.i + 1] as u16) << 8u16);
        self.i += 2;
        result
    }

    pub fn read32(&mut self, bytes: &[u8]) -> (r: u32)
        requires
            old(self).i + 4 <= bytes@.len(),
        ensures
            r == le32(bytes@, old(self).i as int),
            final(self).i == old(self).i + 4,
            final(self).same_except_i(*old(self)),
    {
        let result: u32 = (bytes[self.i] as u32) | ((bytes[self.i + 1] as u32) << 8u32) | ((
        bytes[self.i + 2] as u32) << 16u32) | ((bytes[self.i + 3] as u32) << 24u32);
        self.i += 4;
        result
    }

    /// The next `n` bytes.
    pub fn read_many(&mut self, bytes: &[u8], n: usize) -> (r: Vec<u8>)
        requires
            old(self).i + n <= bytes@.len(),
        ensures
            r@ == bytes@.subrange(old(self).i as int, old(self).i + n),
            final(self).i == old(self).i + n,
            final(self).same_except_i(*old(self)),
    {
        let mut result: Vec<u8> = Vec::new();
        let mut k: usize = 0;
        while k < n
            invariant
                k <= n,
                self.i == old(self).i + k,
                old(self).i + n <= bytes@.len(),
                self.same_except_i(*old(self)),
                result@ == bytes@.subrange(old(self).i as int, old(self).i + k),
            decreases n - k,
        {
            let b = self.read8(bytes);
            result.push(b);
            k += 1;
            assert(result@ =~= bytes@.subrange(old(self).i as int, old(self).i + k));
        }
        result
    }

    /// The next `n` bytes, one character per byte.
    pub fn read_string(&mut self, bytes: &[u8], n: usize) -> (r: String)
        requires
            old(self).i + n <= bytes@.len(),
        ensures
            r@ == latin1(bytes@.subrange(old(self).i as int, old(self).i + n)),
            final(self).i == old(self).i + n,
            final(self).same_except_i(*old(self)),
    {
        let start = self.i;
        let _len = bytes.len();
        let s = latin1_string(&bytes[start..start + n]);
        self.i += n;
        s
    }

    /// The next four bytes, one character per byte (a chunk's name).
    pub fn read4_string(&mut self, bytes: &[u8]) -> (r: String)
        requires
            old(self).i + 4 <= bytes@.len(),
        ensures
            r@ == latin1(bytes@.subrange(old(self).i as int, old(self).i + 4)),
            final(self).i == old(self).i + 4,
            final(self).same_except_i(*old(self)),
    {
        self.read_string(bytes, 4)
    }

    /// The first `bit_count` bits of `bytes`, each byte most significant bit first.
    pub fn bytes_to_bits(&self, bytes: &[u8], bit_count: usize) -> (r: Vec<u8>)
        requires
            bit_count <= bytes@.len() * 8,
        ensures
            r@ == bytes_bits(bytes@, bit_count as nat),
    {
        let mut result: Vec<u8> = Vec::new();
        let mut k: usize = 0;
        while k < bit_count
            invariant
                k <= bit_count,
                bit_count <= bytes@.len() * 8,
                result@ == bytes_bits(bytes@, k as nat),
            decreases bit_count - k,
        {
            let byte = bytes[k / 8];
            let b = bit(byte, 7 - (k % 8) as u8);
            result.push(b);
            k += 1;
            assert(result@ =~= bytes_bits(bytes@, k as nat));
        }
        result
    }

    pub fn push_bytes(buffer: &mut Vec<u8>, bytes: &[u8])
        ensures
            final(buffer)@ == old(buffer)@ + bytes@,
    {
        let mut k: usize = 0;
        while k < bytes.len()
            invariant
                k <= bytes@.len(),
                buffer@ == old(buffer)@ + bytes@.take(k as int),
            decreases bytes@.len() - k,
        {
            buffer.push(bytes[k]);
            k += 1;
            assert(buffer@ =~= old(buffer)@ + bytes@.take(k as int));
        }
        assert(bytes@.take(bytes@.len() as int) =~= bytes@);
    }

    /// Push the low byte of each character of `s`.
    pub fn push_string(buffer: &mut Vec<u8>, s: &str)
        ensures
            final(buffer)@ == old(buffer)@ + low_bytes(s@),
    {
        let n = s.unicode_len();
        let mut k: usize = 0;
        while k < n
            invariant
                k <= n,
                n == s@.len(),
                buffer@ == old(buffer)@ + low_bytes(s@).take(k as int),
            decreases n - k,
        {
            let c = s.get_char(k);
            buffer.push(c as u8);
            k += 1;
            assert(buffer@ =~= old(buffer)@ + low_bytes(s@).take(k as int));
        }
        assert(low_bytes(s@).take(n as int) =~= low_bytes(s@));
    }

    pub fn push_16(buffer: &mut Vec<u8>, v: u16)
        ensures
            final(buffer)@ == old(buffer)@ + le16_bytes(v),
    {
        buffer.push((v & 0xff) as u8);
        buffer.push(((v & 0xff00) >> 8u16) as u8);
        assert(buffer@ =~= old(buffer)@ + le16_bytes(v));
    }

    pub fn push_32(buffer: &mut Vec<u8>, v: u32)
        ensures
            final(buffer)@ == old(buffer)@ + le32_bytes(v),
    {
        buffer.push((v & 0xff) as u8);
        buffer.push(((v & 0xff00) >> 8u32) as u8);
        buffer.push(((v & 0xff0000) >> 16u32) as u8);
        buffer.push(((v & 0xff000000) >> 24u32) as u8);
        assert(buffer@ =~= old(buffer)@ + le32_bytes(v));
    }

    /// Overwrite the four bytes at `index` with `v`, least significant first.
    pub fn set_32(buffer: &mut Vec<u8>, index: usize, v: u32)
        requires
            index + 4 <= old(buffer)@.len(),
        ensures
            final(buffer)@ == old(buffer)@.subrange(0, index as int) + le32_bytes(v) + old(
                buffer,
            )@.subrange(index + 4, old(buffer)@.len() as int),
    {
        let _len = buffer.len();
        buffer.set(index, (v & 0xff) as u8);
        buffer.set(index + 1, ((v & 0xff00) >> 8u32) as u8);
        buffer.set(index + 2, ((v & 0xff0000) >> 16u32) as u8);
        buffer.set(index + 3, ((v & 0xff000000) >> 24u32) as u8);
        assert(buffer@ =~= old(buffer)@.subrange(0, index as int) + le32_bytes(v) + old(
            buffer,
        )@.subrange(index + 4, old(buffer)@.len() as int));
    }

    /// Push `count` copies of `byte`.
    pub fn push_n(buffer: &mut Vec<u8>, count: usize, byte: u8)
        ensures
            final(buffer)@ == old(buffer)@ + Seq::new(count as nat, |i: int| byte),
    {
        let mut k: usize = 0;
        while k < count
            invariant
                k <= count,
                buffer@ == old(buffer)@ + Seq::new(k as nat, |i: int| byte),
            decreases count - k,
        {
            buffer.push(byte);
            k += 1;
            assert(buffer@ =~= old(buffer)@ + Seq::new(k as nat, |i: int| byte));
        }
    }
}

} // verus!

verus! {

/// The pieces of `s` between the separators `sep` (a string's `split`).
pub open spec fn split(s: Seq<u8>, sep: u8) -> Seq<Seq<u8>>
    decreases s.len(),
{
    if exists|k: int| 0 <= k < s.len() && s[k] == sep {
        let k = first_index(s, sep, 0);
        if 0 <= k < s.len() {
            seq![s.take(k)] + split(s.skip(k + 1), sep)
        } else {
            seq![s]
        }
    } else {
        seq![s]
    }
}

/// Index of the first `sep` in `s` at or after `from` (`s.len()` if none).
pub open spec fn first_index(s: Seq<u8>, sep: u8, from: int) -> int
    decreases s.len() - from,
{
    if from < 0 || from >= s.len() {
        s.len() as int
    } else if s[from] == sep {
        from
    } else {
        first_index(s, sep, from + 1)
    }
}

/// The (key, value) pairs of a META chunk: one per line that holds a tab, the
/// key before the first tab, the value between the first and the second.
pub open spec fn meta_pairs(lines: Seq<Seq<u8>>) -> Seq<(Seq<char>, Seq<char>)>
    decreases lines.len(),
{
    if lines.len() == 0 {
        Seq::empty()
    } else {
        let fields = split(lines.last(), 9);
        meta_pairs(lines.drop_last()) + if fields.len() >= 2 {
            seq![(latin1(fields[0]), latin1(fields[1]))]
        } else {
            Seq::empty()
        }
    }
}

/// The metadata that a META chunk's content holds.
pub open spec fn parse_meta(content: Seq<u8>) -> Seq<(Seq<char>, Seq<char>)> {
    meta_pairs(split(content, 10))
}

/// The characters of metadata pairs.
pub open spec fn meta_view(m: Seq<(String, String)>) -> Seq<(Seq<char>, Seq<char>)> {
    Seq::new(m.len(), |k: int| (m[k].0@, m[k].1@))
}

/// Largest track number that the TMAP names (0 if none).
pub open spec fn max_track(tmap: Seq<u8>, n: int) -> u8
    decreases n,
{
    if n <= 0 {
        0
    } else {
        let m = max_track(tmap, n - 1);
        if tmap[n - 1] != 0xff && tmap[n - 1] > m {
            tmap[n - 1]
        } else {
            m
        }
    }
}

/// State of the walk through the chunks of a WOZ file.
pub ghost struct WozWalk {
    /// read position
    pub i: int,
    /// INFO was read and only the version was asked for
    pub done: bool,
    pub version: u8,
    pub write_protected: bool,
    pub tmap: Seq<u8>,
    /// WOZ1 tracks: where the first one starts and how many there are
    pub v1: Option<(int, int)>,
    /// WOZ2 tracks: where the table of the 160 track entries starts
    pub v2: Option<int>,
    pub meta: Seq<(Seq<char>, Seq<char>)>,
}

/// Size in the file of a WOZ1 track: its bits and 10 bytes about them.
pub open spec fn v1_track_size() -> int {
    TRACK_SIZE_V1 as int + 10
}

/// Read the chunk at `w.i`; `None` where reading it goes out of the file or
/// out of the machine's numbers.
pub open spec fn woz_chunk(bytes: Seq<u8>, w: WozWalk, quick: bool) -> Option<WozWalk> {
    let i = w.i;
    let len = bytes.len() as int;
    if i < 0 || i + 8 > len {
        None
    } else {
        let name = latin1(bytes.subrange(i, i + 4));
        let size = le32(bytes, i + 4) as int;
        let j = i + 8;
        if name == "INFO"@ {
            if j + 3 > len || j + 60 > usize::MAX {
                None
            } else {
                Some(
                    WozWalk {
                        i: j + 60,
                        done: quick,
                        version: bytes[j],
                        write_protected: bytes[j + 2] == 1,
                        ..w
                    },
                )
            }
        } else if name == "TMAP"@ {
            if j + 160 > len {
                None
            } else {
                Some(WozWalk { i: j + 160, tmap: bytes.subrange(j, j + 160), ..w })
            }
        } else if name == "TRKS"@ {
            if w.version == 1 {
                let count = max_track(w.tmap, 160) + 1;
                let end = j + count * v1_track_size();
                if end > len || size == 0 || size < 1280 || end + size - 1280 > usize::MAX {
                    None
                } else {
                    Some(WozWalk { i: end + size - 1280, v1: Some((j, count)), v2: None, ..w })
                }
            } else {
                let end = j + 1280;
                if end > len || size == 0 || size < 1280 || j + size > usize::MAX {
                    None
                } else {
                    Some(WozWalk { i: j + size, v1: None, v2: Some(j), ..w })
                }
            }
        } else if name == "META"@ {
            if j + size > len {
                None
            } else {
                Some(WozWalk { i: j + size, meta: parse_meta(bytes.subrange(j, j + size)), ..w })
            }
        } else {
            if j + size > usize::MAX {
                None
            } else {
                Some(WozWalk { i: j + size, ..w })
            }
        }
    }
}

/// Each chunk of a WOZ file that is read moves the reading forward by at
/// least its 8-byte header, so the walk through the chunks ends.
pub proof fn lemma_woz_chunk_advances(bytes: Seq<u8>, w: WozWalk, quick: bool)
    ensures
        woz_chunk(bytes, w, quick) matches Some(w2) ==> w2.i >= w.i + 8,
{
}

/// Walk through the chunks from `w.i` until INFO was read in quick mode or the
/// end of the file is reached.
pub open spec fn woz_walk(bytes: Seq<u8>, w: WozWalk, quick: bool) -> Option<WozWalk>
    decreases bytes.len() - w.i,
    via woz_walk_decreases
{
    match woz_chunk(bytes, w, quick) {
        None => None,
        Some(w2) => if w2.done || w2.i >= bytes.len() {
            Some(w2)
        } else {
            woz_walk(bytes, w2, quick)
        },
    }
}

#[via_fn]
proof fn woz_walk_decreases(bytes: Seq<u8>, w: WozWalk, quick: bool) {
    lemma_woz_chunk_advances(bytes, w, quick);
}

/// Where the walk starts: after the 12 bytes of the header.
pub open spec fn woz_walk_start() -> WozWalk {
    WozWalk {
        i: 12,
        done: false,
        version: 0,
        write_protected: false,
        tmap: Seq::new(160, |p: int| 0u8),
        v1: None,
        v2: None,
        meta: Seq::empty(),
    }
}

/// The header check: `None` where it reads out of the file, `Some(true)` where
/// it rejects the file. (Only a file whose four first bytes all differ from
/// "2OZ2" is rejected.)
pub open spec fn woz_magic_rejects(bytes: Seq<u8>) -> Option<bool> {
    if bytes.len() < 1 {
        None
    } else if bytes[0] == 0x32 {
        Some(false)
    } else if bytes.len() < 2 {
        None
    } else if bytes[1] == 0x4f {
        Some(false)
    } else if bytes.len() < 3 {
        None
    } else if bytes[2] == 0x5a {
        Some(false)
    } else if bytes.len() < 4 {
        None
    } else {
        Some(bytes[3] != 0x32)
    }
}

} // verus!

verus! {

proof fn lemma_first_index(s: Seq<u8>, sep: u8, from: int)
    requires
        0 <= from <= s.len(),
    ensures
        from <= first_index(s, sep, from) <= s.len(),
        first_index(s, sep, from) < s.len() ==> s[first_index(s, sep, from)] == sep,
        forall|k: int| from <= k < first_index(s, sep, from) ==> s[k] != sep,
    decreases s.len() - from,
{
    if from < s.len() && s[from] != sep {
        lemma_first_index(s, sep, from + 1);
    }
}

/// The first piece of a split ends at the first separator.
proof fn lemma_split_first(s: Seq<u8>, sep: u8)
    ensures
        split(s, sep).len() >= 1,
        split(s, sep)[0] == s.take(first_index(s, sep, 0)),
        (split(s, sep).len() >= 2) <==> first_index(s, sep, 0) < s.len(),
        first_index(s, sep, 0) < s.len() ==> split(s, sep) == seq![s.take(first_index(s, sep, 0))]
            + split(s.skip(first_index(s, sep, 0) + 1), sep),
    decreases s.len(),
{
    lemma_first_index(s, sep, 0);
    let k = first_index(s, sep, 0);
    if k < s.len() {
        assert(exists|k: int| 0 <= k < s.len() && s[k] == sep);
        lemma_split_first(s.skip(k + 1), sep);
    } else {
        assert(!exists|k: int| 0 <= k < s.len() && s[k] == sep);
        assert(s.take(k) =~= s);
    }
}

proof fn lemma_meta_pairs_append(a: Seq<Seq<u8>>, b: Seq<Seq<u8>>)
    ensures
        meta_pairs(a + b) == meta_pairs(a) + meta_pairs(b),
    decreases b.len(),
{
    if b.len() == 0 {
        assert(a + b =~= a);
        assert(meta_pairs(a) + meta_pairs(b) =~= meta_pairs(a));
    } else {
        lemma_meta_pairs_append(a, b.drop_last());
        assert((a + b).drop_last() =~= a + b.drop_last());
        assert((a + b).last() == b.last());
        assert(meta_pairs(a) + meta_pairs(b) =~= (meta_pairs(a) + meta_pairs(b.drop_last())) + (
        meta_pairs(b) .subrange(meta_pairs(b.drop_last()).len() as int, meta_pairs(b).len() as int)));
    }
}

proof fn lemma_meta_pairs_one(line: Seq<u8>)
    ensures
        meta_pairs(seq![line]) == (if split(line, 9).len() >= 2 {
            seq![(latin1(split(line, 9)[0]), latin1(split(line, 9)[1]))]
        } else {
            Seq::<(Seq<char>, Seq<char>)>::empty()
        }),
{
    assert(seq![line].drop_last() =~= Seq::<Seq<u8>>::empty());
    assert(meta_pairs(Seq::<Seq<u8>>::empty()) == Seq::<(Seq<char>, Seq<char>)>::empty());
    let r = meta_pairs(seq![line]);
    assert(r =~= (if split(line, 9).len() >= 2 {
        seq![(latin1(split(line, 9)[0]), latin1(split(line, 9)[1]))]
    } else {
        Seq::<(Seq<char>, Seq<char>)>::empty()
    }));
}

/// Index of the first `sep` in `s[from..]`, or `s.len()`.
fn find_byte(s: &[u8], sep: u8, from: usize) -> (r: usize)
    requires
        from <= s@.len(),
    ensures
        r == first_index(s@, sep, from as int),
{
    proof {
        lemma_first_index(s@, sep, from as int);
    }
    let mut k = from;
    while k < s.len() && s[k] != sep
        invariant
            from <= k <= s@.len(),
            first_index(s@, sep, k as int) == first_index(s@, sep, from as int),
        decreases s@.len() - k,
    {
        k += 1;
    }
    k
}

/// The (key, value) pair of a META line, if it holds a tab.
fn meta_line(line: &[u8]) -> (r: Option<(String, String)>)
    ensures
        split(line@, 9).len() >= 2 ==> (r matches Some(p) && p.0@ == latin1(split(line@, 9)[0])
            && p.1@ == latin1(split(line@, 9)[1])),
        split(line@, 9).len() < 2 ==> r is None,
{
    proof {
        lemma_split_first(line@, 9);
        lemma_first_index(line@, 9, 0);
    }
    let k = find_byte(line, 9, 0);
    if k >= line.len() {
        return None;
    }
    let rest = &line[k + 1..line.len()];
    assert(rest@ =~= line@.skip(k + 1));
    proof {
        lemma_split_first(rest@, 9);
        lemma_first_index(rest@, 9, 0);
    }
    let m = find_byte(rest, 9, 0);
    let key = latin1_string(&line[0..k]);
    let value = latin1_string(&rest[0..m]);
    assert(line@.subrange(0, k as int) =~= line@.take(k as int));
    assert(rest@.subrange(0, m as int) =~= rest@.take(m as int));
    Some((key, value))
}

/// The metadata of a META chunk's content.
pub fn meta_from_bytes(content: &[u8]) -> (r: Vec<(String, String)>)
    ensures
        meta_view(r@) == parse_meta(content@),
{
    let mut result: Vec<(String, String)> = Vec::new();
    let mut start: usize = 0;
    let ghost mut done_lines: Seq<Seq<u8>> = Seq::empty();
    assert(content@.skip(0) =~= content@);
    assert(done_lines + split(content@, 10) =~= split(content@, 10));
    loop
        invariant
            start <= content@.len(),
            split(content@, 10) == done_lines + split(content@.skip(start as int), 10),
            meta_view(result@) == meta_pairs(done_lines),
        decreases content@.len() - start,
    {
        let rest = &content[start..content.len()];
        assert(rest@ =~= content@.skip(start as int));
        proof {
            lemma_split_first(rest@, 10);
            lemma_first_index(rest@, 10, 0);
        }
        let k = find_byte(rest, 10, 0);
        let line = &rest[0..k];
        assert(line@ =~= rest@.take(k as int));
        let ghost before = result@;
        match meta_line(line) {
            Some(p) => {
                result.push(p);
            },
            None => {},
        }
        proof {
            lemma_meta_pairs_one(line@);
            lemma_meta_pairs_append(done_lines, seq![line@]);
            assert(meta_view(result@) =~= meta_view(before) + meta_pairs(seq![line@]));
            done_lines = done_lines + seq![line@];
        }
        if k >= rest.len() {
            proof {
                assert(split(rest@, 10) == seq![line@]);
                assert(split(content@, 10) =~= done_lines);
            }
            return result;
        }
        proof {
            assert(rest@.skip(k + 1) =~= content@.skip(start + k + 1));
            assert(split(content@, 10) =~= done_lines + split(content@.skip(start + k + 1), 10));
        }
        start = start + k + 1;
    }
}

} // verus!

verus! {

/// A WOZ1 track entry holds what the file says at `off`.
pub open spec fn v1_entry_ok(bytes: Seq<u8>, off: int, t: TracksV1) -> bool {
    &&& t.file_offset == off
    &&& t.byte_stream@.len() == TRACK_SIZE_V1
    &&& t.byte_stream@ == bytes.subrange(off, off + TRACK_SIZE_V1 as int)
    &&& t.bytes_used == le16(bytes, off + 6646)
    &&& t.bit_count == le16(bytes, off + 6648)
    &&& t.splice_point == le16(bytes, off + 6650)
    &&& t.splice_nibble == bytes[off + 6652]
    &&& t.splice_bit_count == bytes[off + 6653]
}

/// A WOZ2 track entry holds what the file says at `off`.
pub open spec fn v2_entry_ok(bytes: Seq<u8>, off: int, t: Tracks) -> bool {
    &&& t.starting_block == le16(bytes, off)
    &&& t.block_count == le16(bytes, off + 2)
    &&& t.bit_count == le32(bytes, off + 4)
}

/// The parsed track tables agree with the walk.
pub open spec fn tracks_match(
    bytes: Seq<u8>,
    tracks: (Option<Vec<TracksV1>>, Option<Vec<Tracks>>),
    w: WozWalk,
) -> bool {
    &&& (w.v1 is None <==> tracks.0 is None)
    &&& (w.v2 is None <==> tracks.1 is None)
    &&& (w.v1 matches Some((s, c)) ==> tracks.0 matches Some(v) && v@.len() == c && forall|k: int|
        0 <= k < c ==> #[trigger] v1_entry_ok(bytes, s + k * v1_track_size(), v@[k]))
    &&& (w.v2 matches Some(p) ==> tracks.1 matches Some(v) && v@.len() == 160 && forall|k: int|
        0 <= k < 160 ==> #[trigger] v2_entry_ok(bytes, p + 8 * k, v@[k]))
}

impl Woz {
    /// The parts of a Woz that the chunk walk fills agree with `w`.
    pub open spec fn matches_walk(&self, bytes: Seq<u8>, w: WozWalk) -> bool {
        &&& self.i == w.i
        &&& self.info_chunk.version == w.version
        &&& self.info_chunk.write_protected == w.write_protected
        &&& self.tmap@ == w.tmap
        &&& tracks_match(bytes, self.tracks, w)
        &&& meta_view(self.meta@) == w.meta
    }

    pub fn read_info_chunk(&mut self, bytes: &[u8]) -> (r: InfoChunk)
        requires
            old(self).i + 3 <= bytes@.len(),
            old(self).i + 60 <= usize::MAX,
        ensures
            r.version == bytes@[old(self).i as int],
            r.write_protected == (bytes@[old(self).i + 2] == 1),
            final(self).i == old(self).i + 60,
            final(self).same_except_i(*old(self)),
    {
        let version = self.read8(bytes);
        let _disk_type = self.read8(bytes);
        let write_protected = self.read8(bytes) == 1;
        self.skip(57);
        InfoChunk { version, write_protected }
    }

    pub fn read_tmap_chunk(&mut self, bytes: &[u8])
        requires
            old(self).i + 160 <= bytes@.len(),
        ensures
            final(self).tmap@ == bytes@.subrange(old(self).i as int, old(self).i + 160),
            final(self).i == old(self).i + 160,
            *final(self) == (Woz { i: final(self).i, tmap: final(self).tmap, ..*old(self) }),
    {
        let start = self.i;
        let mut k: usize = 0;
        while k < MAX_PHASE
            invariant
                k <= MAX_PHASE,
                self.i == start + k,
                start + 160 <= bytes@.len(),
                *self == (Woz { i: self.i, tmap: self.tmap, ..*old(self) }),
                forall|p: int| 0 <= p < k ==> #[trigger] self.tmap@[p] == bytes@[start + p],
            decreases MAX_PHASE - k,
        {
            let b = self.read8(bytes);
            self.tmap[k] = b;
            k += 1;
        }
        assert(self.tmap@ =~= bytes@.subrange(start as int, start + 160));
    }

    /// The largest track number in the TMAP.
    pub fn max_track(&self) -> (r: u8)
        ensures
            r == max_track(self.tmap@, 160),
    {
        let mut m: u8 = 0;
        let mut k: usize = 0;
        while k < MAX_PHASE
            invariant
                k <= MAX_PHASE,
                m == max_track(self.tmap@, k as int),
            decreases MAX_PHASE - k,
        {
            if self.tmap[k] != 0xff && self.tmap[k] > m {
                m = self.tmap[k];
            }
            k += 1;
        }
        m
    }

    /// Read the table of tracks of a TRKS chunk.
    pub fn read_tracks_chunk(&mut self, bytes: &[u8]) -> (r: (Option<Vec<TracksV1>>, Option<Vec<Tracks>>))
        requires
            old(self).info_chunk.version == 1 ==> old(self).i + (max_track(old(self).tmap@, 160) + 1)
                * v1_track_size() <= bytes@.len(),
            old(self).info_chunk.version != 1 ==> old(self).i + 1280 <= bytes@.len(),
        ensures
            ({
                let j = old(self).i as int;
                let w = WozWalk {
                    i: 0,
                    done: false,
                    version: 0,
                    write_protected: false,
                    tmap: Seq::empty(),
                    v1: if old(self).info_chunk.version == 1 {
                        Some((j, max_track(old(self).tmap@, 160) + 1))
                    } else {
                        None
                    },
                    v2: if old(self).info_chunk.version == 1 {
                        None
                    } else {
                        Some(j)
                    },
                    meta: Seq::empty(),
                };
                tracks_match(bytes@, r, w)
            }),
            final(self).i == old(self).i + (if old(self).info_chunk.version == 1 {
                (max_track(old(self).tmap@, 160) + 1) * v1_track_size()
            } else {
                1280
            }),
            final(self).same_except_i(*old(self)),
    {
        let j = self.i;
        if self.info_chunk.version == 1 {
            let highest = self.max_track();
            let count = highest as usize + 1;
            let mut result1: Vec<TracksV1> = Vec::new();
            let mut k: usize = 0;
            while k < count
                invariant
                    k <= count,
                    count == max_track(self.tmap@, 160) + 1,
                    j + count * v1_track_size() <= bytes@.len(),
                    self.i == j + k * v1_track_size(),
                    self.same_except_i(*old(self)),
                    result1@.len() == k,
                    forall|q: int|
                        0 <= q < k ==> #[trigger] v1_entry_ok(
                            bytes@,
                            j + q * v1_track_size(),
                            result1@[q],
                        ),
                decreases count - k,
            {
                proof {
                    assert((k + 1) * v1_track_size() <= count * v1_track_size()) by (nonlinear_arith)
                        requires
                            k + 1 <= count,
                    ;
                    assert((k + 1) * v1_track_size() == k * v1_track_size() + v1_track_size()) by (nonlinear_arith);
                }
                let start = self.i;
                let byte_stream = self.read_many(bytes, TRACK_SIZE_V1);
                let bytes_used = self.read16(bytes);
                let bit_count = self.read16(bytes);
                let splice_point = self.read16(bytes);
                let splice_nibble = self.read8(bytes);
                let splice_bit_count = self.read8(bytes);
                let _reserved = self.read16(bytes);
                result1.push(
                    TracksV1 {
                        file_offset: start,
                        byte_stream,
                        bytes_used,
                        bit_count,
                        splice_point,
                        splice_nibble,
                        splice_bit_count,
                    },
                );
                k += 1;
            }
            (Some(result1), None)
        } else {
            let mut result2: Vec<Tracks> = Vec::new();
            let mut k: usize = 0;
            while k < MAX_PHASE
                invariant
                    k <= MAX_PHASE,
                    j + 1280 <= bytes@.len(),
                    self.i == j + 8 * k,
                    self.same_except_i(*old(self)),
                    result2@.len() == k,
                    forall|q: int| 0 <= q < k ==> #[trigger] v2_entry_ok(bytes@, j + 8 * q, result2@[q]),
                decreases MAX_PHASE - k,
            {
                let starting_block = self.read16(bytes);
                let block_count = self.read16(bytes);
                let bit_count = self.read32(bytes);
                result2.push(Tracks { starting_block, block_count, bit_count });
                k += 1;
            }
            (None, Some(result2))
        }
    }

    /// Read the metadata of a META chunk of `size` bytes.
    pub fn read_meta(&mut self, bytes: &[u8], size: usize) -> (r: Vec<(String, String)>)
        requires
            old(self).i + size <= bytes@.len(),
        ensures
            meta_view(r@) == parse_meta(bytes@.subrange(old(self).i as int, old(self).i + size)),
            final(self).i == old(self).i + size,
            final(self).same_except_i(*old(self)),
    {
        let start = self.i;
        let _len = bytes.len();
        let result = meta_from_bytes(&bytes[start..start + size]);
        self.skip(size);
        result
    }
}

} // verus!

verus! {

/// The bits of track `t`, read from the file as the walk found its tables;
/// `None` where the reading goes out of the file.
pub open spec fn woz_track_bits(bytes: Seq<u8>, w: WozWalk, t: int) -> Option<Seq<u8>> {
    let len = bytes.len() as int;
    if w.v1 is Some {
        let (start, count) = w.v1->0;
        if t >= count {
            None
        } else {
            let off = start + t * v1_track_size();
            let bc = le16(bytes, off + 6648) as int;
            if bc > TRACK_SIZE_V1 * 8 {
                None
            } else {
                Some(bytes_bits(bytes.subrange(off, off + TRACK_SIZE_V1 as int), bc as nat))
            }
        }
    } else {
        let p = w.v2->0;
        if t >= 160 {
            None
        } else {
            let e = p + 8 * t;
            let start = le16(bytes, e) as int * 512;
            let bc = le32(bytes, e + 4) as int;
            if start > len - 1 || bc > (len - 1 - start) * 8 {
                None
            } else {
                Some(bytes_bits(bytes.subrange(start, len - 1), bc as nat))
            }
        }
    }
}

/// The bit streams of the tracks, in the order their numbers first appear in the
/// TMAP from quarter track `phase` on (`seen`: the numbers met before). `None`
/// where reading goes out of the file, `Some(Err(()))` when the TMAP names a
/// track but no track table was read.
pub open spec fn woz_streams(bytes: Seq<u8>, w: WozWalk, phase: int, seen: Set<u8>) -> Option<
    Result<Seq<Seq<u8>>, ()>,
>
    decreases 160 - phase,
{
    if phase < 0 || phase >= 160 {
        Some(Ok(Seq::empty()))
    } else {
        let t = w.tmap[phase];
        if t == 0xff || seen.contains(t) {
            woz_streams(bytes, w, phase + 1, seen)
        } else if !((w.v1 is Some && w.v2 is None) || (w.v1 is None && w.v2 is Some)) {
            Some(Err(()))
        } else {
            match woz_track_bits(bytes, w, t as int) {
                None => None,
                Some(b) => match woz_streams(bytes, w, phase + 1, seen.insert(t)) {
                    None => None,
                    Some(Err(e)) => Some(Err(e)),
                    Some(Ok(rest)) => Some(Ok(seq![b] + rest)),
                },
            }
        }
    }
}

proof fn lemma_ceil_div8(bc: int, avail: int)
    requires
        bc >= 0,
        avail >= 0,
    ensures
        ((bc + 7) / 8 > avail) <==> (bc > avail * 8),
{
    assert(((bc + 7) / 8 > avail) <==> (bc > avail * 8)) by (nonlinear_arith)
        requires
            bc >= 0,
            avail >= 0,
    ;
}

/// The bits of a list of streams.
pub open spec fn streams_view(s: Seq<BitStream>) -> Seq<Seq<u8>> {
    Seq::new(s.len(), |k: int| s[k].bits@)
}

impl Woz {
    /// The bits of track `t`.
    fn track_bits(&self, bytes: &[u8], t: u8, Ghost(w): Ghost<WozWalk>) -> (r: Option<Vec<u8>>)
        requires
            self.tmap@ == w.tmap,
            tracks_match(bytes@, self.tracks, w),
            (w.v1 is Some && w.v2 is None) || (w.v1 is None && w.v2 is Some),
            bytes@.len() >= 1,
        ensures
            r is None <==> woz_track_bits(bytes@, w, t as int) is None,
            r matches Some(b) ==> woz_track_bits(bytes@, w, t as int) == Some(b@),
    {
        match &self.tracks {
            (Some(trackv1), None) => {
                assert(w.v1 is Some);
                assert(trackv1@.len() == (w.v1->0).1);
                if (t as usize) >= trackv1.len() {
                    return None;
                }
                let track = &trackv1[t as usize];
                assert(v1_entry_ok(bytes@, (w.v1->0).0 + t * v1_track_size(), trackv1@[t as int]));
                if (track.bit_count as usize) > TRACK_SIZE_V1 * 8 {
                    return None;
                }
                Some(self.bytes_to_bits(&track.byte_stream, track.bit_count as usize))
            },
            (None, Some(trackv2)) => {
                assert(w.v2 is Some);
                assert(trackv2@.len() == 160);
                if (t as usize) >= trackv2.len() {
                    return None;
                }
                let track = trackv2[t as usize];
                assert(v2_entry_ok(bytes@, w.v2->0 + 8 * t, trackv2@[t as int]));
                let start: usize = track.starting_block as usize * 512;
                let len = bytes.len();
                if start > len - 1 {
                    return None;
                }
                let avail = len - 1 - start;
                proof {
                    lemma_ceil_div8(track.bit_count as int, avail as int);
                }
                if ((track.bit_count as u64) + 7) / 8 > avail as u64 {
                    return None;
                }
                Some(self.bytes_to_bits(&bytes[start..len - 1], track.bit_count as usize))
            },
            _ => { None },
        }
    }

    /// Build the bit streams of the tracks, in the order their numbers first
    /// appear in the TMAP.
    pub fn bytes_to_bit_streams(&self, bytes: &[u8], disk_info: DiskInfo, Ghost(w): Ghost<WozWalk>) -> (r: Option<Result<BitStreams, String>>)
        requires
            self.tmap@ == w.tmap,
            tracks_match(bytes@, self.tracks, w),
            bytes@.len() >= 1,
        ensures
            r is None <==> woz_streams(bytes@, w, 0, Set::empty()) is None,
            r matches Some(Err(_)) <==> woz_streams(bytes@, w, 0, Set::empty()) matches Some(Err(_)),
            r matches Some(Ok(bs)) ==> woz_streams(bytes@, w, 0, Set::empty()) == Some(
                Ok::<Seq<Seq<u8>>, ()>(streams_view(bs.bit_streams@)),
            ) && bs.tmap@ == self.tmap@ && bs.disk_info == disk_info && bs.random.random,
    {
        let mut bit_streams: Vec<BitStream> = Vec::new();
        let mut seen: [bool; 256] = [false; 256];
        let ghost mut seen_set: Set<u8> = Set::empty();
        let mut phase: usize = 0;
        while phase < MAX_PHASE
            invariant
                phase <= MAX_PHASE,
                self.tmap@ == w.tmap,
                tracks_match(bytes@, self.tracks, w),
                bytes@.len() >= 1,
                forall|x: u8| #[trigger] seen@[x as int] == seen_set.contains(x),
                forall|k: int| 0 <= k < bit_streams@.len() ==> !(#[trigger] bit_streams@[k]).random,
                ({
                    let whole = woz_streams(bytes@, w, 0, Set::empty());
                    let rest = woz_streams(bytes@, w, phase as int, seen_set);
                    &&& (whole is None <==> rest is None)
                    &&& (whole matches Some(Err(_)) <==> rest matches Some(Err(_)))
                    &&& (rest matches Some(Ok(rs)) ==> whole == Some(
                        Ok::<Seq<Seq<u8>>, ()>(streams_view(bit_streams@) + rs),
                    ))
                }),
            decreases MAX_PHASE - phase,
        {
            let t = self.tmap[phase];
            let ghost old_streams = bit_streams@;
            if t != 0xff && !seen[t as usize] {
                let ok_kind = match &self.tracks {
                    (Some(_), None) => true,
                    (None, Some(_)) => true,
                    _ => false,
                };
                if !ok_kind {
                    return Some(Err(String::from_str("Couldn't parse this WOZ file")));
                }
                match self.track_bits(bytes, t, Ghost(w)) {
                    None => {
                        return None;
                    },
                    Some(bits) => {
                        bit_streams.push(BitStream::new(bits));
                        seen[t as usize] = true;
                        proof {
                            let b = woz_track_bits(bytes@, w, t as int)->0;
                            assert(streams_view(bit_streams@) =~= streams_view(old_streams) + seq![b]);
                            match woz_streams(bytes@, w, phase + 1, seen_set.insert(t)) {
                                Some(Ok(rs)) => {
                                    assert(streams_view(old_streams) + (seq![b] + rs) =~= streams_view(bit_streams@) + rs);
                                },
                                _ => {},
                            }
                            seen_set = seen_set.insert(t);
                        }
                    },
                }
            }
            phase += 1;
        }
        proof {
            assert(streams_view(bit_streams@) + Seq::<Seq<u8>>::empty() =~= streams_view(bit_streams@));
        }
        Some(Ok(BitStreams::new(bit_streams, self.tmap, disk_info)))
    }
}

} // verus!

verus! {

/// How reading a WOZ file ends before its tracks are decoded.
pub ghost enum WozOutcome {
    /// the reading goes out of the file or out of the machine's numbers
    Panic,
    /// the header is rejected
    Reject,
    /// the chunks were walked through
    Walked(WozWalk),
}

/// Check the header, then walk through the chunks.
pub open spec fn woz_outcome(bytes: Seq<u8>, quick: bool) -> WozOutcome {
    match woz_magic_rejects(bytes) {
        None => WozOutcome::Panic,
        Some(true) => WozOutcome::Reject,
        Some(false) => if bytes.len() < 5 {
            WozOutcome::Panic
        } else if bytes[4] != 0xff {
            WozOutcome::Reject
        } else if bytes.len() < 12 {
            WozOutcome::Panic
        } else {
            match woz_walk(bytes, woz_walk_start(), quick) {
                None => WozOutcome::Panic,
                Some(w) => WozOutcome::Walked(w),
            }
        },
    }
}

/// Reading the file goes out of its bounds (the program stops there).
pub open spec fn woz_panics(bytes: Seq<u8>, quick: bool) -> bool {
    match woz_outcome(bytes, quick) {
        WozOutcome::Panic => true,
        WozOutcome::Reject => false,
        WozOutcome::Walked(w) => !quick && woz_streams(bytes, w, 0, Set::empty()) is None,
    }
}

/// The file is refused with an error message.
pub open spec fn woz_fails(bytes: Seq<u8>, quick: bool) -> bool {
    match woz_outcome(bytes, quick) {
        WozOutcome::Panic => false,
        WozOutcome::Reject => true,
        WozOutcome::Walked(w) => !quick && woz_streams(bytes, w, 0, Set::empty()) matches Some(
            Err(_),
        ),
    }
}

/// Format that a WOZ file's INFO version stands for.
pub open spec fn woz_version_of(version: u8) -> WozVersion {
    if version == 1 {
        WozVersion::Woz1
    } else {
        WozVersion::Woz2
    }
}

/// What a successfully read WOZ file holds.
pub open spec fn woz_loaded(bytes: Seq<u8>, quick: bool, filename: Seq<char>, woz: Woz) -> bool {
    match woz_outcome(bytes, quick) {
        WozOutcome::Walked(w) => {
            &&& woz.matches_walk(bytes, w)
            &&& woz.disk_info.path@ == filename
            &&& woz.disk_info.woz_version == woz_version_of(w.version)
            &&& if quick {
                &&& woz.disk_info.name is None
                &&& woz.disk_info.is_write_protected
                &&& woz.disk_info.map@.len() == 0
                &&& woz.bit_streams.bit_streams@.len() == 0
            } else {
                &&& woz.disk_info.name == crate::disk::disk_info::lookup(woz.meta@, "title"@)
                &&& woz.disk_info.is_write_protected == w.write_protected
                &&& meta_view(woz.disk_info.map@) == w.meta
                &&& woz_streams(bytes, w, 0, Set::empty()) == Some(
                    Ok::<Seq<Seq<u8>>, ()>(streams_view(woz.bit_streams.bit_streams@)),
                )
                &&& woz.bit_streams.tmap@ == w.tmap
                &&& woz.bit_streams.disk_info.same_as(woz.disk_info)
                &&& woz.bit_streams.random.random
            }
        },
        _ => false,
    }
}

/// A copy of metadata pairs.
fn copy_meta(m: &Vec<(String, String)>) -> (r: Vec<(String, String)>)
    ensures
        meta_view(r@) == meta_view(m@),
{
    let mut result: Vec<(String, String)> = Vec::new();
    let mut k: usize = 0;
    while k < m.len()
        invariant
            k <= m@.len(),
            result@.len() == k,
            forall|q: int|
                0 <= q < k ==> (#[trigger] result@[q]).0@ == m@[q].0@ && result@[q].1@ == m@[q].1@,
        decreases m@.len() - k,
    {
        result.push(
            (
                crate::disk::disk_info::copy_string(&m[k].0),
                crate::disk::disk_info::copy_string(&m[k].1),
            ),
        );
        k += 1;
    }
    assert(meta_view(result@) =~= meta_view(m@));
    result
}

impl Woz {
    pub fn default() -> (r: Woz)
        ensures
            r.i == 0,
            r.tmap@ == Seq::new(160, |p: int| 0u8),
            r.tracks.0 is None,
            r.tracks.1 is None,
            r.meta@.len() == 0,
            r.info_chunk.version == 0,
            !r.info_chunk.write_protected,
            r.bit_streams.bit_streams@.len() == 0,
    {
        let r = Woz {
            disk_info: DiskInfo::default(),
            i: 0,
            tmap: [0; MAX_PHASE],
            tracks: (None, None),
            bit_streams: BitStreams::default(),
            meta: Vec::new(),
            info_chunk: InfoChunk { version: 0, write_protected: false },
        };
        assert(r.tmap@ =~= Seq::new(160, |p: int| 0u8));
        r
    }

    /// Read a WOZ file. If `quick` is true, stop after the INFO chunk and do not
    /// decode the bit streams. `None` where the reading would go out of the file.
    pub fn new(bytes: &[u8], filename: &str, quick: bool) -> (r: Option<Result<Woz, String>>)
        ensures
            r is None <==> woz_panics(bytes@, quick),
            r matches Some(Err(_)) <==> woz_fails(bytes@, quick),
            r matches Some(Ok(woz)) ==> woz_loaded(bytes@, quick, filename@, woz),
    {
        let len = bytes.len();
        // header
        if len < 1 {
            return None;
        }
        if bytes[0] != 0x32 {
            if len < 2 {
                return None;
            }
            if bytes[1] != 0x4f {
                if len < 3 {
                    return None;
                }
                if bytes[2] != 0x5a {
                    if len < 4 {
                        return None;
                    }
                    if bytes[3] != 0x32 {
                        return Some(Err(String::from_str("Not a valid .woz file")));
                    }
                }
            }
        }
        if len < 5 {
            return None;
        }
        if bytes[4] != 0xff {
            return Some(Err(String::from_str("Expected $FF")));
        }
        if len < 12 {
            return None;
        }
        let mut woz = Woz::default();
        woz.i = 8;
        let _checksum = woz.read32(bytes);
        let ghost mut w = woz_walk_start();
        proof {
            assert(woz.tmap@ =~= w.tmap);
            assert(meta_view(woz.meta@) =~= w.meta);
        }
        let info = String::from_str("INFO");
        let tmap = String::from_str("TMAP");
        let trks = String::from_str("TRKS");
        let meta = String::from_str("META");
        let mut end = false;
        while !end
            invariant
                len == bytes@.len(),
                len >= 12,
                info@ == "INFO"@,
                tmap@ == "TMAP"@,
                trks@ == "TRKS"@,
                meta@ == "META"@,
                woz.matches_walk(bytes@, w),
                woz.bit_streams.bit_streams@.len() == 0,
                woz_magic_rejects(bytes@) == Some(false),
                bytes@[4] == 0xff,
                !end ==> woz_walk(bytes@, woz_walk_start(), quick) == woz_walk(bytes@, w, quick),
                end ==> woz_walk(bytes@, woz_walk_start(), quick) == Some(w),
                !end ==> w.i <= len,
                !end ==> !w.done,
            decreases (if end { 0int } else { 1 + len - woz.i }),
        {
            let ghost w0 = w;
            if woz.i > len - 8 {
                return None;
            }
            let name = woz.read4_string(bytes);
            let size32 = woz.read32(bytes);
            let size = size32 as usize;
            let j = woz.i;
            if name == info {
                if j > len - 3 || j > usize::MAX - 60 {
                    return None;
                }
                woz.info_chunk = woz.read_info_chunk(bytes);
                proof {
                    w = WozWalk {
                        i: j + 60,
                        done: quick,
                        version: bytes@[j as int],
                        write_protected: bytes@[j + 2] == 1,
                        ..w0
                    };
                }
                if quick {
                    end = true;
                }
            } else if name == tmap {
                if len < 160 || j > len - 160 {
                    return None;
                }
                woz.read_tmap_chunk(bytes);
                proof {
                    w = WozWalk { i: j + 160, tmap: bytes@.subrange(j as int, j + 160), ..w0 };
                }
            } else if name == trks {
                if woz.info_chunk.version == 1 {
                    let count = woz.max_track() as usize + 1;
                    if j > len || (len - j) / 6656 < count {
                        return None;
                    }
                    proof {
                        assert(count * v1_track_size() <= len - j) by (nonlinear_arith)
                            requires
                                (len - j) / 6656 >= count,
                                v1_track_size() == 6656,
                                j <= len,
                        ;
                    }
                    woz.tracks = woz.read_tracks_chunk(bytes);
                    if size == 0 || size < 1280 || woz.i > usize::MAX - (size - 1280) {
                        return None;
                    }
                    woz.i = woz.i + (size - 1280);
                    proof {
                        w = WozWalk {
                            i: j + count * v1_track_size() + size - 1280,
                            v1: Some((j as int, count as int)),
                            v2: None,
                            ..w0
                        };
                    }
                } else {
                    if len < 1280 || j > len - 1280 {
                        return None;
                    }
                    woz.tracks = woz.read_tracks_chunk(bytes);
                    if size == 0 || size < 1280 || woz.i > usize::MAX - (size - 1280) {
                        return None;
                    }
                    woz.i = woz.i + (size - 1280);
                    proof {
                        w = WozWalk { i: j + size, v1: None, v2: Some(j as int), ..w0 };
                    }
                }
            } else if name == meta {
                if j > len || size > len - j {
                    return None;
                }
                woz.meta = woz.read_meta(bytes, size);
                proof {
                    w = WozWalk {
                        i: j + size,
                        meta: parse_meta(bytes@.subrange(j as int, j + size)),
                        ..w0
                    };
                }
            } else {
                if j > usize::MAX - size {
                    return None;
                }
                woz.skip(size);
                proof {
                    w = WozWalk { i: j + size, ..w0 };
                }
            }
            proof {
                assert(woz_chunk(bytes@, w0, quick) == Some(w));
            }
            if woz.i >= len {
                end = true;
            }
        }
        let disk_type = if woz.info_chunk.version == 1 {
            WozVersion::Woz1
        } else {
            WozVersion::Woz2
        };
        if !quick {
            let title = woz.title();
            let map = copy_meta(&woz.meta);
            woz.disk_info = DiskInfo::new2(title, filename, map, disk_type, woz.info_chunk.write_protected);
            let di = woz.disk_info.copy();
            match woz.bytes_to_bit_streams(bytes, di, Ghost(w)) {
                None => None,
                Some(Err(e)) => Some(Err(e)),
                Some(Ok(bb)) => {
                    woz.bit_streams = bb;
                    Some(Ok(woz))
                },
            }
        } else {
            woz.disk_info = DiskInfo::n(filename);
            woz.disk_info.woz_version = disk_type;
            Some(Ok(woz))
        }
    }
}

} // verus!

verus! {

/// The creator field of the INFO chunk: 32 characters, padded with spaces.
pub const WOZ_CREATOR: &'static str = "Maple-2, by Cédric Beust        ";

/// The header and INFO chunk of a WOZ2 file as this library writes it.
pub open spec fn woz_info_bytes() -> Seq<u8> {
    low_bytes("WOZ2"@) + seq![0xffu8, 0x0a, 0x0d, 0x0a] + seq![0u8, 0, 0, 0] + low_bytes("INFO"@)
        + le32_bytes(60) + seq![2u8, 1, 1, 0, 1] + low_bytes(WOZ_CREATOR@) + seq![1u8, 1, 32]
        + le16_bytes(0) + le16_bytes(0) + le16_bytes(0xd) + le16_bytes(0) + le16_bytes(0) + Seq::new(
        10,
        |i: int| 0u8,
    )
}

/// The byte made of the `n` bits from `start` on, most significant first;
/// bits past the end of `bits` count as 0.
pub open spec fn pack_byte(bits: Seq<u8>, start: int, n: nat) -> u8
    decreases n,
{
    if n == 0 {
        0
    } else {
        crate::disk::bit_stream::shift_in(
            pack_byte(bits, start, (n - 1) as nat),
            if start + n - 1 < bits.len() {
                bits[start + n - 1]
            } else {
                0
            },
        )
    }
}

/// The bits packed eight to a byte, the last byte padded with 0 bits.
pub open spec fn pack_bits(bits: Seq<u8>) -> Seq<u8> {
    Seq::new(((bits.len() + 7) / 8) as nat, |k: int| pack_byte(bits, 8 * k, 8))
}

/// Number of 0 bytes that bring a length of `n` to the next multiple of 512.
pub open spec fn pad_512(n: int) -> nat {
    if n % 512 == 0 {
        0
    } else {
        (512 - n % 512) as nat
    }
}

/// Number of 512-byte blocks that the TRKS table gives a track of `len` bits.
pub open spec fn track_block_count(len: int) -> int {
    (len / 4096 + 1) as u16 as int
}

/// First block of the track of stream `n` (the first is at block 3).
pub open spec fn track_start_block(streams: Seq<BitStream>, n: int) -> int
    decreases n,
{
    if n <= 0 {
        3
    } else {
        track_start_block(streams, n - 1) + track_block_count(streams[n - 1].bits@.len() as int)
    }
}

/// The TRKS table entries of the first `n` streams.
pub open spec fn trks_entries(streams: Seq<BitStream>, n: int) -> Seq<u8>
    decreases n,
{
    if n <= 0 {
        Seq::empty()
    } else {
        let len = streams[n - 1].bits@.len() as int;
        trks_entries(streams, n - 1) + le16_bytes(track_start_block(streams, n - 1) as u16)
            + le16_bytes(track_block_count(len) as u16) + le32_bytes(len as u32)
    }
}

/// The bits of the first `n` streams, each packed and padded to 512 bytes.
pub open spec fn trks_data(streams: Seq<BitStream>, n: int) -> Seq<u8>
    decreases n,
{
    if n <= 0 {
        Seq::empty()
    } else {
        let p = pack_bits(streams[n - 1].bits@);
        trks_data(streams, n - 1) + p + Seq::new(pad_512(p.len() as int), |i: int| 0u8)
    }
}

/// `prefix` followed by the TMAP and TRKS chunks of `tmap` and `streams`.
pub open spec fn woz_tracks_bytes(prefix: Seq<u8>, tmap: Seq<u8>, streams: Seq<BitStream>) -> Seq<
    u8,
> {
    let head = prefix + low_bytes("TMAP"@) + le32_bytes(160) + tmap + low_bytes("TRKS"@);
    let table = trks_entries(streams, streams.len() as int);
    let data = trks_data(streams, streams.len() as int);
    head + le32_bytes((0x600 + data.len() - head.len() - 4) as u32) + table + Seq::new(
        (0x600 - head.len() - 4 - table.len()) as nat,
        |i: int| 0u8,
    ) + data
}

pub(crate) proof fn lemma_start_block_grows(streams: Seq<BitStream>, a: int, b: int)
    requires
        0 <= a <= b,
    ensures
        track_start_block(streams, a) <= track_start_block(streams, b),
    decreases b - a,
{
    if a < b {
        lemma_start_block_grows(streams, a, b - 1);
    }
}

pub(crate) proof fn lemma_entries_len(streams: Seq<BitStream>, n: int)
    requires
        0 <= n,
    ensures
        trks_entries(streams, n).len() == 8 * n,
    decreases n,
{
    if n > 0 {
        lemma_entries_len(streams, n - 1);
    }
}

pub(crate) proof fn lemma_data_len(streams: Seq<BitStream>, n: int)
    requires
        0 <= n,
    ensures
        trks_data(streams, n).len() % 512 == 0,
    decreases n,
{
    if n > 0 {
        lemma_data_len(streams, n - 1);
        let p = pack_bits(streams[n - 1].bits@);
        let d = trks_data(streams, n - 1).len() as int;
        let q = p.len() as int;
        assert((d + q + pad_512(q)) % 512 == 0) by (nonlinear_arith)
            requires
                d % 512 == 0,
                q >= 0,
                pad_512(q) == (if q % 512 == 0 { 0 } else { 512 - q % 512 }),
        ;
    }
}

impl Woz {
    /// Append the header and INFO chunk of a WOZ2 file.
    pub fn woz_file_1(buffer: &mut Vec<u8>)
        ensures
            final(buffer)@ == old(buffer)@ + woz_info_bytes(),
    {
        Woz::push_string(buffer, "WOZ2");
        Woz::push_bytes(buffer, &[0xff, 0xa, 0xd, 0xa]);
        // checksum, left at 0
        Woz::push_bytes(buffer, &[0, 0, 0, 0]);
        Woz::push_string(buffer, "INFO");
        Woz::push_32(buffer, 60);
        buffer.push(2);  // version
        buffer.push(1);  // 5.25" floppy
        buffer.push(1);  // write protected
        buffer.push(0);  // not synchronized
        buffer.push(1);  // cleaned
        Woz::push_string(buffer, WOZ_CREATOR);
        buffer.push(1);  // sides
        buffer.push(1);  // boot sector format
        buffer.push(32);  // ideal bit rate
        Woz::push_16(buffer, 0);  // compatible hardware: all
        Woz::push_16(buffer, 0);  // required RAM
        Woz::push_16(buffer, 0xd);  // largest track, in blocks
        Woz::push_16(buffer, 0);  // flux
        Woz::push_16(buffer, 0);  // flux blocks
        Woz::push_n(buffer, 10, 0);
        assert(buffer@ =~= old(buffer)@ + woz_info_bytes());
    }

    /// The bits of `bs` packed eight to a byte, most significant first, the
    /// last byte padded with 0 bits.
    fn pack_stream(buffer: &mut Vec<u8>, bs: &BitStream)
        requires
            !bs.random,
        ensures
            final(buffer)@ == old(buffer)@ + pack_bits(bs.bits@),
    {
        let n = bs.len();
        let ghost bits = bs.bits@;
        let mut bit_index: usize = 0;
        let mut k: usize = 0;
        while bit_index < n
            invariant
                n == bits.len(),
                bits == bs.bits@,
                !bs.random,
                bit_index <= n,
                bit_index < n ==> bit_index == 8 * k,
                bit_index == n ==> k == (n + 7) / 8,
                bit_index == 0 ==> k == 0,
                buffer@ == old(buffer)@ + pack_bits(bits).take(k as int),
            decreases n - bit_index,
        {
            let mut a: u8 = 0;
            let mut a_index: usize = 0;
            while bit_index < n && a_index < 8
                invariant
                    n == bits.len(),
                    bits == bs.bits@,
                    !bs.random,
                    a_index <= 8,
                    bit_index <= n,
                    bit_index == 8 * k + a_index,
                    a == pack_byte(bits, 8 * k, a_index as nat),
                decreases 8 - a_index,
            {
                a = (a << 1u8) | bs.next_bit(bit_index);
                bit_index += 1;
                a_index += 1;
            }
            while a_index < 8
                invariant
                    n == bits.len(),
                    a_index <= 8,
                    bit_index == 8 * k + a_index || bit_index == n,
                    bit_index == n || a_index == 8,
                    8 * k + a_index >= n || a_index == 8,
                    a == pack_byte(bits, 8 * k, a_index as nat),
                decreases 8 - a_index,
            {
                assert((a << 1u8) == ((a << 1u8) | 0u8)) by (bit_vector);
                a = a << 1u8;
                a_index += 1;
            }
            proof {
                assert(8 * k < n);
                assert(k < (n + 7) / 8);
            }
            buffer.push(a);
            proof {
                assert(pack_bits(bits)[k as int] == a);
            }
            k += 1;
            proof {
                assert(buffer@ =~= old(buffer)@ + pack_bits(bits).take(k as int));
            }
        }
        proof {
            assert(k == (n + 7) / 8);
            assert(pack_bits(bits).take(k as int) =~= pack_bits(bits));
        }
    }

    /// Append the TMAP and TRKS chunks of `bit_streams`: the TRKS table is
    /// padded to byte 0x600 of the file, then each track's bits follow,
    /// packed eight to a byte and padded to a 512-byte block.
    pub fn woz_file_2(buffer: &mut Vec<u8>, bit_streams: &BitStreams)
        requires
            old(buffer)@.len() + 176 + 8 * bit_streams.bit_streams@.len() <= 0x600,
            forall|k: int|
                0 <= k < bit_streams.bit_streams@.len() ==> !(#[trigger] bit_streams.bit_streams@[k]).random,
            track_start_block(bit_streams.bit_streams@, bit_streams.bit_streams@.len() as int)
                <= u16::MAX,
        ensures
            final(buffer)@ == woz_tracks_bytes(
                old(buffer)@,
                bit_streams.tmap@,
                bit_streams.bit_streams@,
            ),
    {
        let ghost streams = bit_streams.bit_streams@;
        let ghost start = old(buffer)@;
        let count = bit_streams.bit_streams.len();
        proof {
            reveal_strlit("TMAP");
            reveal_strlit("TRKS");
        }
        Woz::push_string(buffer, "TMAP");
        Woz::push_32(buffer, MAX_PHASE as u32);
        let mut p: usize = 0;
        while p < MAX_PHASE
            invariant
                p <= MAX_PHASE,
                buffer@ == start + low_bytes("TMAP"@) + le32_bytes(160) + bit_streams.tmap@.take(
                    p as int,
                ),
            decreases MAX_PHASE - p,
        {
            buffer.push(bit_streams.tmap[p]);
            p += 1;
            assert(buffer@ =~= start + low_bytes("TMAP"@) + le32_bytes(160)
                + bit_streams.tmap@.take(p as int));
        }
        assert(bit_streams.tmap@.take(160) =~= bit_streams.tmap@);
        Woz::push_string(buffer, "TRKS");
        let ghost head = buffer@;
        let chunk_size_index = buffer.len();
        Woz::push_32(buffer, 0);  // the chunk's size, set at the end
        let mut block: u16 = 3;
        let mut k: usize = 0;
        while k < count
            invariant
                k <= count,
                count == streams.len(),
                streams == bit_streams.bit_streams@,
                head.len() + 4 + 8 * count <= 0x600,
                track_start_block(streams, count as int) <= u16::MAX,
                block == track_start_block(streams, k as int),
                buffer@ == head + le32_bytes(0) + trks_entries(streams, k as int),
            decreases count - k,
        {
            proof {
                lemma_start_block_grows(streams, k + 1, count as int);
            }
            let len = bit_streams.bit_streams[k].len();
            let block_count = len / 512 / 8 + 1;
            Woz::push_16(buffer, block);
            Woz::push_16(buffer, #[verifier::truncate] (block_count as u16));
            Woz::push_32(buffer, #[verifier::truncate] (len as u32));
            block = block + #[verifier::truncate] (block_count as u16);
            k += 1;
            assert(buffer@ =~= head + le32_bytes(0) + trks_entries(streams, k as int));
        }
        proof {
            lemma_entries_len(streams, count as int);
        }
        let ghost table_end = buffer@.len();
        while buffer.len() != 0x600
            invariant
                table_end <= buffer@.len() <= 0x600,
                table_end == head.len() + 4 + 8 * count,
                buffer@ == head + le32_bytes(0) + trks_entries(streams, count as int) + Seq::new(
                    (buffer@.len() - table_end) as nat,
                    |i: int| 0u8,
                ),
            decreases 0x600 - buffer@.len(),
        {
            buffer.push(0);
            assert(buffer@ =~= head + le32_bytes(0) + trks_entries(streams, count as int)
                + Seq::new((buffer@.len() - table_end) as nat, |i: int| 0u8));
        }
        let ghost table = buffer@;
        let mut k: usize = 0;
        while k < count
            invariant
                k <= count,
                count == streams.len(),
                streams == bit_streams.bit_streams@,
                forall|q: int| 0 <= q < count ==> !(#[trigger] streams[q]).random,
                table.len() == 0x600,
                buffer@ == table + trks_data(streams, k as int),
            decreases count - k,
        {
            proof {
                lemma_data_len(streams, k as int);
            }
            let ghost before = buffer@;
            Woz::pack_stream(buffer, &bit_streams.bit_streams[k]);
            let ghost packed = buffer@;
            while buffer.len() % 512 != 0
                invariant
                    packed.len() <= buffer@.len(),
                    buffer@.len() <= packed.len() + pad_512(packed.len() as int),
                    packed.len() % 512 == (before.len() % 512 + (packed.len() - before.len())
                        % 512) % 512,
                    before.len() % 512 == 0,
                    buffer@ == packed + Seq::new((buffer@.len() - packed.len()) as nat, |i: int| 0u8),
                decreases packed.len() + pad_512(packed.len() as int) - buffer@.len(),
            {
                buffer.push(0);
                assert(buffer@ =~= packed + Seq::new(
                    (buffer@.len() - packed.len()) as nat,
                    |i: int| 0u8,
                ));
            }
            proof {
                let q = (packed.len() - before.len()) as int;
                assert(buffer@.len() - packed.len() == pad_512(q));
            }
            k += 1;
            assert(buffer@ =~= table + trks_data(streams, k as int));
        }
        let chunk_size = #[verifier::truncate] ((buffer.len() - chunk_size_index - 4) as u32);
        Woz::set_32(buffer, chunk_size_index, chunk_size);
        proof {
            let data = trks_data(streams, count as int);
            assert(buffer@ =~= woz_tracks_bytes(start, bit_streams.tmap@, streams));
        }
    }
}

} // verus!

