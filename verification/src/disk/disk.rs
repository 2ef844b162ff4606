use vstd::prelude::*;
use vstd::string::StrSliceExecFns;
use crate::disk::bit_stream::{AnalyzedTrack, BitStream, BitStreams, sync_runs_fit};
use crate::disk::disk_info::DiskInfo;
use crate::disk::dsk::Dsk;
use crate::disk::woz::{Woz, woz_panics, woz_fails, woz_loaded};
use crate::text::{lowercase, to_lowercase};

verus! {

/// A disk image format: it supplies the bit streams of the disk's tracks and
/// what is known of the disk.
pub trait PDisk {
    spec fn spec_bit_streams(&self) -> BitStreams;

    spec fn spec_disk_info(&self) -> DiskInfo;

    fn bit_streams(&self) -> (r: &BitStreams)
        ensures
            *r == self.spec_bit_streams(),
    ;

    fn disk_info(&self) -> (r: &DiskInfo)
        ensures
            *r == self.spec_disk_info(),
    ;
}

impl PDisk for Woz {
    open spec fn spec_bit_streams(&self) -> BitStreams {
        self.bit_streams
    }

    open spec fn spec_disk_info(&self) -> DiskInfo {
        self.disk_info
    }

    fn bit_streams(&self) -> (r: &BitStreams) {
        &self.bit_streams
    }

    fn disk_info(&self) -> (r: &DiskInfo) {
        &self.disk_info
    }
}

impl PDisk for Dsk {
    open spec fn spec_bit_streams(&self) -> BitStreams {
        self.bit_streams
    }

    open spec fn spec_disk_info(&self) -> DiskInfo {
        self.disk_info
    }

    fn bit_streams(&self) -> (r: &BitStreams) {
        &self.bit_streams
    }

    fn disk_info(&self) -> (r: &DiskInfo) {
        &self.disk_info
    }
}

/// A disk image of one of the two formats.
pub enum DiskImage {
    Woz(Woz),
    Dsk(Dsk),
}

impl DiskImage {
    pub open spec fn streams(&self) -> BitStreams {
        match self {
            DiskImage::Woz(w) => w.spec_bit_streams(),
            DiskImage::Dsk(d) => d.spec_bit_streams(),
        }
    }

    pub open spec fn info(&self) -> DiskInfo {
        match self {
            DiskImage::Woz(w) => w.spec_disk_info(),
            DiskImage::Dsk(d) => d.spec_disk_info(),
        }
    }

    pub fn bit_streams(&self) -> (r: &BitStreams)
        ensures
            *r == self.streams(),
    {
        match self {
            DiskImage::Woz(w) => w.bit_streams(),
            DiskImage::Dsk(d) => d.bit_streams(),
        }
    }

    pub fn disk_info(&self) -> (r: &DiskInfo)
        ensures
            *r == self.info(),
    {
        match self {
            DiskImage::Woz(w) => PDisk::disk_info(w),
            DiskImage::Dsk(d) => PDisk::disk_info(d),
        }
    }

    /// Write `bit` at `bit_position` of the stream under quarter-track `phase_160`.
    pub fn set_bit(&mut self, phase_160: usize, bit_position: usize, bit: u8)
        requires
            phase_160 < 160,
            (old(self).streams().tmap@[phase_160 as int] as int) < old(self).streams().bit_streams@.len(),
            bit_position < old(self).streams().bit_streams@[old(self).streams().tmap@[phase_160 as int] as int].bits@.len(),
        ensures
            final(self).streams().written(old(self).streams(), phase_160 as int, bit_position as int, bit),
            final(self).info() == old(self).info(),
            (*final(self) is Woz) <==> (*old(self) is Woz),
    {
        match self {
            DiskImage::Woz(w) => w.bit_streams.set_bit_and_advance(phase_160, bit_position, bit),
            DiskImage::Dsk(d) => d.bit_streams.set_bit_and_advance(phase_160, bit_position, bit),
        }
    }
}

impl BitStreams {
    /// `self` is `old` with `bit` written at `pos` of the stream of quarter-track `phase`.
    pub open spec fn written(&self, old: BitStreams, phase: int, pos: int, bit: u8) -> bool {
        let t = old.tmap@[phase] as int;
        &&& self.bit_streams@.len() == old.bit_streams@.len()
        &&& forall|k: int|
            0 <= k < old.bit_streams@.len() && k != t ==> #[trigger] self.bit_streams@[k]
                == old.bit_streams@[k]
        &&& self.bit_streams@[t].bits@ == old.bit_streams@[t].bits@.update(pos, bit)
        &&& self.bit_streams@[t].random == old.bit_streams@[t].random
        &&& self.tmap@ == old.tmap@
        &&& self.disk_info == old.disk_info
        &&& self.random == old.random
    }
}

/// `s` ends with `suffix`.
pub open spec fn ends_with(s: Seq<char>, suffix: Seq<char>) -> bool {
    s.len() >= suffix.len() && s.subrange(s.len() - suffix.len(), s.len() as int) == suffix
}

/// Whether `s` ends with `suffix`.
pub fn str_ends_with(s: &str, suffix: &str) -> (r: bool)
    ensures
        r == ends_with(s@, suffix@),
{
    let n = s.unicode_len();
    let m = suffix.unicode_len();
    if n < m {
        return false;
    }
    let mut k: usize = 0;
    while k < m
        invariant
            n == s@.len(),
            m == suffix@.len(),
            m <= n,
            k <= m,
            forall|q: int| 0 <= q < k ==> s@[n - m + q] == suffix@[q],
        decreases m - k,
    {
        if s.get_char(n - m + k) != suffix.get_char(k) {
            assert(s@.subrange(n - m, n as int)[k as int] != suffix@[k as int]);
            return false;
        }
        k += 1;
    }
    assert(s@.subrange(n - m, n as int) =~= suffix@);
    true
}

/// The format that a file's name gives: `Some(true)` for WOZ, `Some(false)`
/// for DSK (checked in that order, whatever the case), `None` for neither.
pub open spec fn format_of(path: Seq<char>) -> Option<bool> {
    if ends_with(lowercase(path), ".woz"@) {
        Some(true)
    } else if ends_with(lowercase(path), ".dsk"@) {
        Some(false)
    } else {
        None
    }
}

/// `d` holds the WOZ image read from `bytes`, its head at the start.
pub open spec fn woz_disk(d: Disk, bytes: Seq<u8>, quick: bool, path: Seq<char>) -> bool {
    &&& d.bit_position == 0
    &&& match d.image {
        DiskImage::Woz(w) => woz_loaded(bytes, quick, path, w),
        _ => false,
    }
}

/// `d` holds the .dsk image read from `bytes`, its head at the start.
pub open spec fn dsk_disk(d: Disk, bytes: Seq<u8>, quick: bool, path: Seq<char>) -> bool {
    &&& d.bit_position == 0
    &&& match d.image {
        DiskImage::Dsk(k) => if quick {
            k.is_quick(path)
        } else {
            k.loaded_from(path, bytes)
        },
        _ => false,
    }
}

/// A disk image in a drive, with the position of the head in the current
/// track's bit stream.
pub struct Disk {
    pub image: DiskImage,
    pub bit_position: usize,
}

impl Disk {
    pub open spec fn streams(&self) -> BitStreams {
        self.image.streams()
    }

    /// The stream under the head at quarter-track `phase` can be read at the
    /// head's position.
    pub open spec fn readable(&self, phase: int) -> bool {
        let s = self.streams().stream_at(phase);
        &&& self.streams().phase_ok(phase)
        &&& s.bits@.len() > 0
        &&& (s.random || self.bit_position < s.bits@.len())
        &&& self.bit_position < usize::MAX
    }

    /// A disk read from the file `path` whose content is `bytes`; with `quick`,
    /// only what identifies the disk is read. `None` where no disk can be made
    /// of it: a name that is neither .woz nor .dsk, or a WOZ file whose reading
    /// would go out of its bounds (the program stops there).
    pub fn new(path: &str, bytes: &[u8], quick: bool) -> (r: Option<Result<Disk, String>>)
        ensures
            format_of(path@) is None ==> r is None,
            format_of(path@) == Some(true) ==> {
                &&& (r is None <==> woz_panics(bytes@, quick))
                &&& (r matches Some(Err(_)) <==> woz_fails(bytes@, quick))
                &&& (r matches Some(Ok(d)) ==> woz_disk(d, bytes@, quick, path@))
            },
            format_of(path@) == Some(false) ==> match r {
                Some(Ok(d)) => dsk_disk(d, bytes@, quick, path@),
                _ => false,
            },
    {
        let lower = to_lowercase(path);
        if str_ends_with(lower.as_str(), ".woz") {
            match Woz::new(bytes, path, quick) {
                None => None,
                Some(Err(e)) => Some(Err(e)),
                Some(Ok(w)) => Some(Ok(Disk { image: DiskImage::Woz(w), bit_position: 0 })),
            }
        } else if str_ends_with(lower.as_str(), ".dsk") {
            let dsk = if quick {
                Dsk::quick(path)
            } else {
                Dsk::bytes_to_bit_streams(path, bytes)
            };
            Some(Ok(Disk { image: DiskImage::Dsk(dsk), bit_position: 0 }))
        } else {
            None
        }
    }

    /// A copy of what is known of the disk.
    pub fn disk_info(&self) -> (r: DiskInfo)
        ensures
            r.same_as(self.image.info()),
    {
        self.image.disk_info().copy()
    }

    /// Number of bits of the stream under quarter-track `phase_160`.
    pub fn get_stream_len(&self, phase_160: usize) -> (r: usize)
        requires
            self.streams().phase_ok(phase_160 as int),
        ensures
            r == self.streams().stream_len(phase_160 as int),
    {
        self.image.bit_streams().len(phase_160)
    }

    /// The nibbles of the track under quarter-track `phase_160`, and its kind.
    pub fn analyze_track(&self, phase_160: usize) -> (r: AnalyzedTrack)
        requires
            self.streams().phase_ok(phase_160 as int),
            sync_runs_fit(self.streams().stream_at(phase_160 as int).bits@),
        ensures
            ({
                let s = self.streams().stream_at(phase_160 as int);
                &&& r.nibbles@ == crate::disk::bit_stream::nibble_areas(
                    crate::disk::bit_stream::nibbles_from(s.bits@, 0),
                )
                &&& r.track_type == (if s.random {
                    crate::disk::bit_stream::TrackType::Empty
                } else if crate::disk::bit_stream::is_standard(r.nibbles@) {
                    crate::disk::bit_stream::TrackType::Standard
                } else {
                    crate::disk::bit_stream::TrackType::Nonstandard
                })
            }),
    {
        self.image.bit_streams().get_stream(phase_160).analyze_track()
    }

    /// The bit at `bit_position` of the stream under quarter-track `phase160`
    /// (noise where there is no track).
    pub fn peek_bit(&self, bit_position: usize, phase160: usize) -> (r: u8)
        requires
            self.streams().phase_ok(phase160 as int),
            self.streams().stream_at(phase160 as int).random || bit_position
                < self.streams().stream_at(phase160 as int).bits@.len(),
        ensures
            !self.streams().stream_at(phase160 as int).random ==> r == self.streams().stream_at(
                phase160 as int,
            ).bits@[bit_position as int],
            r <= 1 || !self.streams().stream_at(phase160 as int).random,
    {
        let stream: &BitStream = self.image.bit_streams().get_stream(phase160);
        stream.next_bit(bit_position)
    }

    /// Read the bit under the head and move the head to the next bit, wrapping
    /// at the end of the track.
    pub fn next_bit(&mut self, phase160: usize) -> (r: u8)
        requires
            old(self).readable(phase160 as int),
        ensures
            ({
                let s = old(self).streams().stream_at(phase160 as int);
                &&& (!s.random ==> r == s.bits@[old(self).bit_position as int])
                &&& (s.random ==> r <= 1)
                &&& final(self).bit_position == (old(self).bit_position + 1) % (s.bits@.len() as int)
            }),
            final(self).image == old(self).image,
    {
        let result = self.peek_bit(self.bit_position, phase160);
        let len = self.image.bit_streams().get_stream(phase160).len();
        self.bit_position = (self.bit_position + 1) % len;
        result
    }

    /// Write `bit` under the head and move the head to the next bit.
    pub fn set_bit_and_advance(&mut self, phase_160: usize, bit: u8)
        requires
            phase_160 < 160,
            old(self).streams().phase_ok(phase_160 as int),
            (old(self).streams().tmap@[phase_160 as int] as int) < old(self).streams().bit_streams@.len(),
            old(self).bit_position < old(self).streams().bit_streams@[old(self).streams().tmap@[phase_160 as int] as int].bits@.len(),
            old(self).bit_position < usize::MAX,
            old(self).streams().stream_at(phase_160 as int).bits@.len() > 0,
        ensures
            final(self).streams().written(old(self).streams(), phase_160 as int, old(self).bit_position as int, bit),
            final(self).image.info() == old(self).image.info(),
            final(self).image is Woz <==> old(self).image is Woz,
            final(self).bit_position == (old(self).bit_position + 1) % (final(self).streams().stream_at(phase_160 as int).bits@.len() as int),
    {
        let pos = self.bit_position;
        self.image.set_bit(phase_160, pos, bit);
        let len = self.image.bit_streams().get_stream(phase_160).len();
        proof {
            let t = old(self).streams().tmap@[phase_160 as int] as int;
            if self.streams().tmap@[phase_160 as int] != 0xff {
                assert(self.streams().bit_streams@[t].bits@.len() == old(self).streams().bit_streams@[t].bits@.len());
            }
        }
        self.bit_position = (pos + 1) % len;
    }

    /// A nibble can be written under the head at quarter-track `phase`: a
    /// track lies there and the head is within it.
    pub open spec fn writable(&self, phase: int) -> bool {
        let t = self.streams().tmap@[phase] as int;
        &&& 0 <= phase < 160
        &&& self.streams().tmap@[phase] != 0xff
        &&& t < self.streams().bit_streams@.len()
        &&& self.bit_position < self.streams().bit_streams@[t].bits.len()
    }

    /// Whether a nibble can be written under the head at `phase_160`.
    pub fn can_write(&self, phase_160: usize) -> (r: bool)
        ensures
            r == self.writable(phase_160 as int),
    {
        if phase_160 >= 160 {
            return false;
        }
        let streams = self.image.bit_streams();
        let t = streams.tmap[phase_160];
        if t == 0xff || t as usize >= streams.bit_streams.len() {
            return false;
        }
        self.bit_position < streams.bit_streams[t as usize].bits.len()
    }

    /// `self` is `old` after the bits of `data` were written from the head on,
    /// at quarter-track `phase`.
    pub open spec fn bits_written(&self, old: Disk, phase: int, data: Seq<u8>) -> bool {
        let t = old.streams().tmap@[phase] as int;
        let old_bits = old.streams().bit_streams@[t].bits@;
        &&& self.writable(phase)
        &&& self.streams().bit_streams@.len() == old.streams().bit_streams@.len()
        &&& forall|k: int|
            0 <= k < old.streams().bit_streams@.len() && k != t ==> #[trigger] self.streams().bit_streams@[k]
                == old.streams().bit_streams@[k]
        &&& self.streams().bit_streams@[t].bits@ == write_prefix(
            old_bits,
            old.bit_position as int,
            data,
            data.len() as int,
        )
        &&& self.streams().bit_streams@[t].random == old.streams().bit_streams@[t].random
        &&& self.bit_position == (old.bit_position + data.len()) % (old_bits.len() as int)
        &&& self.streams().tmap@ == old.streams().tmap@
        &&& self.streams().disk_info == old.streams().disk_info
        &&& self.streams().random == old.streams().random
        &&& self.image.info() == old.image.info()
        &&& (self.image is Woz) <==> (old.image is Woz)
    }

    /// Write the bits of `data` from the head on, the head moving with each
    /// bit and wrapping at the end of the track.
    pub fn write_bits(&mut self, phase_160: usize, data: &Vec<u8>)
        requires
            old(self).writable(phase_160 as int),
        ensures
            final(self).bits_written(*old(self), phase_160 as int, data@),
    {
        let ghost t = old(self).streams().tmap@[phase_160 as int] as int;
        let ghost old_bits = old(self).streams().bit_streams@[t].bits@;
        let ghost pos0 = old(self).bit_position as int;
        proof {
            vstd::arithmetic::div_mod::lemma_small_mod(pos0 as nat, old_bits.len());
        }
        let mut k: usize = 0;
        while k < data.len()
            invariant
                k <= data@.len(),
                self.writable(phase_160 as int),
                self.streams().tmap@ == old(self).streams().tmap@,
                self.streams().bit_streams@.len() == old(self).streams().bit_streams@.len(),
                forall|q: int|
                    0 <= q < old(self).streams().bit_streams@.len() && q != t ==> #[trigger] self.streams().bit_streams@[q]
                        == old(self).streams().bit_streams@[q],
                t == self.streams().tmap@[phase_160 as int] as int,
                old_bits.len() > 0,
                self.streams().bit_streams@[t].bits@ == write_prefix(old_bits, pos0, data@, k as int),
                self.streams().bit_streams@[t].bits@.len() == old_bits.len(),
                self.streams().bit_streams@[t].random == old(self).streams().bit_streams@[t].random,
                self.bit_position == (pos0 + k) % (old_bits.len() as int),
                self.streams().disk_info == old(self).streams().disk_info,
                self.streams().random == old(self).streams().random,
                self.image.info() == old(self).image.info(),
                (self.image is Woz) <==> (old(self).image is Woz),
            decreases data@.len() - k,
        {
            proof {
                lemma_write_prefix_len(old_bits, pos0, data@, k as int);
            }
            self.set_bit_and_advance(phase_160, data[k]);
            proof {
                let n = old_bits.len() as int;
                vstd::arithmetic::div_mod::lemma_add_mod_noop(pos0 + k, 1, n);
                if n == 1 {
                    assert((pos0 + k + 1) % n == 0);
                } else {
                    vstd::arithmetic::div_mod::lemma_small_mod(1, n as nat);
                }
            }
            k += 1;
            proof {
                lemma_write_prefix_len(old_bits, pos0, data@, k as int);
            }
        }
    }
}

/// `bits` after the first `k` bits of `data` were written from `pos` on,
/// wrapping at the end.
pub open spec fn write_prefix(bits: Seq<u8>, pos: int, data: Seq<u8>, k: int) -> Seq<u8>
    decreases k,
{
    if k <= 0 {
        bits
    } else {
        write_prefix(bits, pos, data, k - 1).update((pos + k - 1) % (bits.len() as int), data[k - 1])
    }
}

proof fn lemma_write_prefix_len(bits: Seq<u8>, pos: int, data: Seq<u8>, k: int)
    requires
        bits.len() > 0,
    ensures
        write_prefix(bits, pos, data, k).len() == bits.len(),
    decreases k,
{
    if k > 0 {
        lemma_write_prefix_len(bits, pos, data, k - 1);
    }
}

/// The bit written `j`-th by a write of at most `bits.len()` bits from `pos`
/// is still there after the `k` first bits are written.
proof fn lemma_write_prefix_at(bits: Seq<u8>, pos: int, data: Seq<u8>, k: int, j: int)
    requires
        bits.len() > 0,
        0 <= pos,
        0 <= j < k <= bits.len(),
        k <= data.len(),
    ensures
        write_prefix(bits, pos, data, k)[(pos + j) % (bits.len() as int)] == data[j],
    decreases k,
{
    let n = bits.len() as int;
    lemma_write_prefix_len(bits, pos, data, k - 1);
    vstd::arithmetic::div_mod::lemma_mod_bound(pos + j, n);
    if j < k - 1 {
        lemma_write_prefix_at(bits, pos, data, k - 1, j);
        assert((pos + j) % n != (pos + k - 1) % n) by {
            vstd::arithmetic::div_mod::lemma_fundamental_div_mod(pos + j, n);
            vstd::arithmetic::div_mod::lemma_fundamental_div_mod(pos + k - 1, n);
            if (pos + j) % n == (pos + k - 1) % n {
                assert(n * ((pos + k - 1) / n) - n * ((pos + j) / n) == k - 1 - j);
                vstd::arithmetic::mul::lemma_mul_is_distributive_sub(n, (pos + k - 1) / n, (pos + j) / n);
                let d = (pos + k - 1) / n - (pos + j) / n;
                assert(n * d == k - 1 - j);
                if d <= 0 {
                    assert(n * d <= 0) by (nonlinear_arith)
                        requires
                            d <= 0,
                            n > 0,
                    ;
                } else {
                    assert(n * d >= n) by (nonlinear_arith)
                        requires
                            d >= 1,
                            n > 0,
                    ;
                }
            }
        }
    }
}

/// Bits written to a track read back: after `write_bits` of `data`, no longer
/// than the track, the bit at the `i`-th position from where the head was is
/// the `i`-th bit of `data`.
pub proof fn lemma_written_bits_read_back(before: Disk, after: Disk, phase: int, data: Seq<u8>, i: int)
    requires
        before.writable(phase),
        after.bits_written(before, phase, data),
        data.len() <= before.streams().stream_at(phase).bits@.len(),
        0 <= i < data.len(),
    ensures
        after.streams().stream_at(phase).bits@[(before.bit_position + i) % (before.streams().stream_at(
            phase,
        ).bits@.len() as int)] == data[i],
{
    let t = before.streams().tmap@[phase] as int;
    let bits = before.streams().bit_streams@[t].bits@;
    lemma_write_prefix_at(bits, before.bit_position as int, data, data.len() as int, i);
}

} // verus!

