use vstd::prelude::*;
use crate::misc::{bit, bit_of};
use crate::noise::noise_bit;
use crate::disk::disk_info::DiskInfo;
use crate::disk::disk_controller::MAX_PHASE;

verus! {

/// Where a nibble sits in a sector, as far as the standard markers tell.
#[derive(Clone, Copy, Debug, PartialEq, Eq, Structural)]
pub enum AreaType {
    AddressPrologue,
    AddressContent,
    AddressEpilogue,
    DataPrologue,
    DataContent,
    DataEpilogue,
    Unknown,
}

/// Kind of a track, as decided by `BitStream::analyze_track`.
#[derive(Clone, Copy, Debug, PartialEq, Eq, Structural)]
pub enum TrackType {
    Standard,
    Nonstandard,
    Empty,
}

/// A disk byte (high bit set) read off a track.
#[derive(Clone, Copy, Debug, PartialEq, Eq, Structural)]
pub struct Nibble {
    pub value: u8,
    /// Number of sync bits following that nibble
    pub sync_bits: u16,
    pub area_type: AreaType,
}

/// The eight bits of `v`, most significant first.
pub open spec fn byte_bits(v: u8) -> Seq<u8> {
    Seq::new(8, |i: int| bit_of(v, (7 - i) as u8))
}

/// The bits that encode a nibble on a track: its value, most significant bit
/// first, then its sync zeros when there are at least two of them.
pub open spec fn nibble_bits(n: Nibble) -> Seq<u8> {
    byte_bits(n.value) + if n.sync_bits >= 2 {
        Seq::new(n.sync_bits as nat, |i: int| 0u8)
    } else {
        Seq::<u8>::empty()
    }
}

impl Nibble {
    pub fn new(value: u8, sync_bits: u16) -> (r: Nibble)
        ensures
            r == (Nibble { value, sync_bits, area_type: AreaType::Unknown }),
    {
        Nibble { value, sync_bits, area_type: AreaType::Unknown }
    }

    pub fn is(&self, value: u8) -> (r: bool)
        ensures
            r == (self.value == value),
    {
        self.value == value
    }

    /// The same nibble, placed in the given area.
    pub fn area(&self, area_type: AreaType) -> (r: Nibble)
        ensures
            r == (Nibble { value: self.value, sync_bits: self.sync_bits, area_type }),
    {
        Nibble { value: self.value, sync_bits: self.sync_bits, area_type }
    }

    /// The bits to write on a track for this nibble.
    pub fn to_bits(&self) -> (r: Vec<u8>)
        ensures
            r@ == nibble_bits(*self),
    {
        let mut result: Vec<u8> = Vec::new();
        let mut i: u8 = 0;
        while i < 8
            invariant
                i <= 8,
                result@ == byte_bits(self.value).take(i as int),
            decreases 8 - i,
        {
            result.push(bit(self.value, 7 - i));
            i += 1;
        }
        assert(result@ == byte_bits(self.value));
        if self.sync_bits >= 2 {
            let mut k: u16 = 0;
            while k < self.sync_bits
                invariant
                    k <= self.sync_bits,
                    result@ == byte_bits(self.value) + Seq::new(k as nat, |i: int| 0u8),
                decreases self.sync_bits - k,
            {
                result.push(0);
                k += 1;
            }
        } else {
            assert(result@ == byte_bits(self.value) + Seq::<u8>::empty());
        }
        result
    }
}

/// A stream of bits that holds the content of a track. A random stream stands
/// for an empty track: reading it gives noise.
#[derive(Clone, Debug)]
pub struct BitStream {
    pub bits: Vec<u8>,
    pub random: bool,
}

/// One step of a shift register that takes bits in from the right.
pub open spec fn shift_in(acc: u8, b: u8) -> u8 {
    ((acc << 1u8) | b) as u8
}

/// The position after `pos` in a stream of `len` bits, wrapping to 0 at the end.
pub open spec fn next_pos(len: int, pos: int) -> int {
    if pos + 1 >= len { 0 } else { pos + 1 }
}

/// Shift `n` bits into `acc`, starting at `pos` and wrapping around the stream.
pub open spec fn read_bits(bits: Seq<u8>, pos: int, n: nat, acc: u8) -> u8
    decreases n,
{
    if n == 0 {
        acc
    } else {
        read_bits(bits, next_pos(bits.len() as int, pos), (n - 1) as nat, shift_in(acc, bits[pos]))
    }
}

/// Position of the `k`-th bit read by `next_nibble` from `start`: once past the
/// end of the stream it keeps reading bit 0.
pub open spec fn nibble_pos(len: int, start: int, k: int) -> int {
    if k == 0 { start } else if start + k >= len { 0 } else { start + k }
}

/// Content of the shift register after `k` bits were read by `next_nibble` from `start`.
pub open spec fn nibble_acc(bits: Seq<u8>, start: int, k: nat) -> u8
    decreases k,
{
    if k == 0 {
        0
    } else {
        shift_in(nibble_acc(bits, start, (k - 1) as nat), bits[nibble_pos(bits.len() as int, start, k - 1)])
    }
}

/// Whether `next_nibble` started at `start` ever meets a bit that is not 0.
pub open spec fn nibble_reachable(bits: Seq<u8>, start: int) -> bool {
    ||| exists|j: int| start <= j < bits.len() && bits[j] != 0
    ||| bits.len() > 0 && bits[0] != 0
}

proof fn lemma_shift_in_keeps_one(acc: u8, b: u8)
    requires
        acc != 0,
        acc & 0x80 == 0,
    ensures
        shift_in(acc, b) != 0,
        shift_in(acc, b) >= 2 * acc,
{
    assert(((acc << 1u8) | b) as u8 != 0 && ((acc << 1u8) | b) as u8 >= 2 * acc) by (bit_vector)
        requires
            acc != 0,
            acc & 0x80 == 0,
    ;
}

proof fn lemma_high_bit(acc: u8)
    ensures
        acc & 0x80 == 0 <==> acc < 0x80,
        acc & 0x80 != 0x80 <==> acc < 0x80,
{
    assert(acc & 0x80 == 0 <==> acc < 0x80) by (bit_vector);
    assert(acc & 0x80 != 0x80 <==> acc < 0x80) by (bit_vector);
}

proof fn lemma_shift_in_nonzero(b: u8)
    requires
        b != 0,
    ensures
        shift_in(0, b) != 0,
{
    assert(((0u8 << 1u8) | b) as u8 != 0) by (bit_vector)
        requires
            b != 0,
    ;
}


/// Shift bits in from position `i` until the register's high bit is set or the
/// stream ends; the position reached and the register's content.
pub open spec fn scan_value(bits: Seq<u8>, i: int, value: u8) -> (int, u8)
    decreases bits.len() - i,
{
    if 0 <= i < bits.len() && value < 0x80 {
        scan_value(bits, i + 1, shift_in(value, bits[i]))
    } else {
        (i, value)
    }
}

/// Number of consecutive 0 bits from position `i` to the end of the stream.
pub open spec fn zero_run(bits: Seq<u8>, i: int) -> nat
    decreases bits.len() - i,
{
    if 0 <= i < bits.len() && bits[i] == 0 {
        1 + zero_run(bits, i + 1)
    } else {
        0
    }
}

/// The sync bits that follow a nibble ending at `i`: counted only when at least
/// the next two bits (the second one wrapping around) are 0.
pub open spec fn sync_count(bits: Seq<u8>, i: int) -> nat {
    if 0 <= i < bits.len() && bits[i] == 0 && bits[(i + 1) % (bits.len() as int)] == 0 {
        zero_run(bits, i)
    } else {
        0
    }
}

/// Scanning for a nibble never moves back, stays within the track, and
/// moves forward from any position of the track.
pub proof fn lemma_scan_value_advances(bits: Seq<u8>, i: int, value: u8)
    ensures
        scan_value(bits, i, value).0 >= i,
        0 <= i ==> scan_value(bits, i, value).0 <= bits.len() || scan_value(bits, i, value).0 == i,
        0 <= i < bits.len() && value < 0x80 ==> scan_value(bits, i, value).0 > i,
    decreases bits.len() - i,
{
    if 0 <= i < bits.len() && value < 0x80 {
        lemma_scan_value_advances(bits, i + 1, shift_in(value, bits[i]));
    }
}

/// A run of 0 bits ends within the track.
pub proof fn lemma_zero_run_bound(bits: Seq<u8>, i: int)
    ensures
        0 <= i <= bits.len() ==> i + zero_run(bits, i) <= bits.len(),
    decreases bits.len() - i,
{
    if 0 <= i < bits.len() && bits[i] == 0 {
        lemma_zero_run_bound(bits, i + 1);
    }
}

/// The nibbles read from position `i` to the end of a track.
pub open spec fn nibbles_from(bits: Seq<u8>, i: int) -> Seq<Nibble>
    decreases bits.len() - i,
    via nibbles_from_decreases
{
    if i < 0 || i >= bits.len() {
        Seq::empty()
    } else {
        let p = scan_value(bits, i, 0);
        let s = sync_count(bits, p.0);
        seq![Nibble { value: p.1, sync_bits: s as u16, area_type: AreaType::Unknown }]
            + nibbles_from(bits, p.0 + s)
    }
}

#[via_fn]
proof fn nibbles_from_decreases(bits: Seq<u8>, i: int) {
    lemma_scan_value_advances(bits, i, 0);
    lemma_zero_run_bound(bits, scan_value(bits, i, 0).0);
}

proof fn lemma_append3<T>(pre: Seq<T>, a: T, b: T, c: T, rest: Seq<T>)
    ensures
        pre.push(a).push(b).push(c) + rest == pre + (seq![a, b, c] + rest),
{
    assert(pre.push(a).push(b).push(c) + rest =~= pre + (seq![a, b, c] + rest));
}

proof fn lemma_append2<T>(pre: Seq<T>, a: T, b: T, rest: Seq<T>)
    ensures
        pre.push(a).push(b) + rest == pre + (seq![a, b] + rest),
{
    assert(pre.push(a).push(b) + rest =~= pre + (seq![a, b] + rest));
}

proof fn lemma_append1<T>(pre: Seq<T>, a: T, rest: Seq<T>)
    ensures
        pre.push(a) + rest == pre + (seq![a] + rest),
{
    assert(pre.push(a) + rest =~= pre + (seq![a] + rest));
}

/// The bits of a track written with the nibbles of `ns`, in order.
pub open spec fn nibbles_bits(ns: Seq<Nibble>) -> Seq<u8>
    decreases ns.len(),
{
    if ns.len() == 0 {
        Seq::empty()
    } else {
        nibble_bits(ns[0]) + nibbles_bits(ns.drop_first())
    }
}

proof fn lemma_shift_step(v: u8, s: u8)
    by (bit_vector)
    requires
        s < 8,
    ensures
        ((((v >> ((s + 1) as u8)) << 1u8) | ((v >> s) & 1)) as u8) == v >> s,
        v >> ((s + 1) as u8) < 0x80,
        v >> 8u8 == 0,
        v >> 0u8 == v,
        v >= 0x80 ==> (v >> 7u8) & 1 == 1,
{
}

proof fn lemma_scan_byte(bits: Seq<u8>, i: int, v: u8, k: int)
    requires
        0 <= i,
        i + 8 <= bits.len(),
        bits.subrange(i, i + 8) == byte_bits(v),
        v >= 0x80,
        0 <= k <= 8,
    ensures
        scan_value(bits, i + k, v >> ((8 - k) as u8)) == (i + 8, v),
    decreases 8 - k,
{
    if k == 8 {
        lemma_shift_step(v, 0);
    } else {
        let s = (7 - k) as u8;
        lemma_shift_step(v, s);
        lemma_scan_byte(bits, i, v, k + 1);
        assert(bits[i + k] == bits.subrange(i, i + 8)[k]);
        assert(bits[i + k] == (v >> s) & 1);
        assert(((8 - k) as u8) == ((s + 1) as u8));
        assert(((8 - (k + 1)) as u8) == s);
        assert(shift_in(v >> ((8 - k) as u8), bits[i + k]) == v >> s);
    }
}

proof fn lemma_zero_run_exact(bits: Seq<u8>, p: int, n: int)
    requires
        0 <= p,
        0 <= n,
        p + n <= bits.len(),
        forall|j: int| p <= j < p + n ==> bits[j] == 0,
        p + n == bits.len() || bits[p + n] != 0,
    ensures
        zero_run(bits, p) == n,
    decreases n,
{
    if n > 0 {
        lemma_zero_run_exact(bits, p + 1, n - 1);
    }
}

proof fn lemma_read_back_from(bits: Seq<u8>, i: int, ns: Seq<Nibble>)
    requires
        0 <= i <= bits.len(),
        bits.subrange(i, bits.len() as int) == nibbles_bits(ns),
        forall|k: int|
            0 <= k < ns.len() ==> (#[trigger] ns[k]).value >= 0x80 && ns[k].sync_bits != 1 && ns[k].area_type
                == AreaType::Unknown,
    ensures
        nibbles_from(bits, i) == ns,
    decreases ns.len(),
{
    if ns.len() == 0 {
        assert(i == bits.len());
    } else {
        let n = ns[0];
        let rest = ns.drop_first();
        let z: nat = if n.sync_bits >= 2 { n.sync_bits as nat } else { 0 };
        let tail = bits.subrange(i, bits.len() as int);
        assert(tail == byte_bits(n.value) + (if n.sync_bits >= 2 {
            Seq::new(n.sync_bits as nat, |j: int| 0u8)
        } else {
            Seq::<u8>::empty()
        }) + nibbles_bits(rest));
        assert(bits.len() >= i + 8 + z);
        assert(bits.subrange(i, i + 8) =~= byte_bits(n.value)) by {
            assert forall|j: int| 0 <= j < 8 implies bits.subrange(i, i + 8)[j] == byte_bits(n.value)[j] by {
                assert(bits.subrange(i, i + 8)[j] == tail[j]);
            }
        }
        lemma_scan_byte(bits, i, n.value, 0);
        lemma_shift_step(n.value, 0);
        let p = i + 8;
        assert forall|j: int| p <= j < p + z implies bits[j] == 0 by {
            assert(bits[j] == tail[j - i]);
        }
        assert(bits.subrange(p + z, bits.len() as int) =~= nibbles_bits(rest)) by {
            assert forall|j: int| 0 <= j < bits.len() - (p + z) implies bits.subrange(p + z, bits.len() as int)[j]
                == nibbles_bits(rest)[j] by {
                assert(bits[p + z + j] == tail[8 + z + j]);
            }
        }
        if p + z < bits.len() {
            assert(rest.len() > 0);
            let m = rest[0];
            assert(m == ns[1]);
            lemma_shift_step(m.value, 7);
            assert(bits[p + z] == nibbles_bits(rest)[0]);
            assert(nibbles_bits(rest)[0] == byte_bits(m.value)[0]);
        }
        lemma_zero_run_exact(bits, p, z as int);
        if z >= 2 {
            vstd::arithmetic::div_mod::lemma_small_mod((p + 1) as nat, bits.len());
            assert(bits[p] == 0 && bits[p + 1] == 0);
        } else if p < bits.len() {
            assert(bits[p] != 0);
        }
        assert(sync_count(bits, p) == z);
        assert forall|k: int| 0 <= k < rest.len() implies (#[trigger] rest[k]).value >= 0x80 && rest[k].sync_bits
            != 1 && rest[k].area_type == AreaType::Unknown by {
            assert(rest[k] == ns[k + 1]);
        }
        lemma_read_back_from(bits, p + z, rest);
        assert(z as u16 == n.sync_bits);
        assert(nibbles_from(bits, i) =~= ns);
    }
}

/// Reading a track back gives the nibbles that were written on it: a track
/// made of the bits of nibbles (each a value with its high bit set, followed
/// by none or at least two sync bits) reads as those nibbles, in order.
pub proof fn lemma_nibbles_read_back(ns: Seq<Nibble>)
    requires
        forall|k: int|
            0 <= k < ns.len() ==> (#[trigger] ns[k]).value >= 0x80 && ns[k].sync_bits != 1 && ns[k].area_type
                == AreaType::Unknown,
    ensures
        nibbles_from(nibbles_bits(ns), 0) == ns,
{
    let bits = nibbles_bits(ns);
    assert(bits.subrange(0, bits.len() as int) =~= bits);
    lemma_read_back_from(bits, 0, ns);
}

/// A nibble moved to another area.
pub open spec fn relabel(n: Nibble, t: AreaType) -> Nibble {
    Nibble { value: n.value, sync_bits: n.sync_bits, area_type: t }
}

/// D5 AA 96 starts at `i` (and is not at the very end of the track).
pub open spec fn is_address_prologue(ns: Seq<Nibble>, i: int) -> bool {
    0 <= i && i + 3 < ns.len() && ns[i].value == 0xd5 && ns[i + 1].value == 0xaa && ns[i + 2].value
        == 0x96
}

/// D5 AA AD starts at `i` (and is not at the very end of the track).
pub open spec fn is_data_prologue(ns: Seq<Nibble>, i: int) -> bool {
    0 <= i && i + 3 < ns.len() && ns[i].value == 0xd5 && ns[i + 1].value == 0xaa && ns[i + 2].value
        == 0xad
}

/// DE AA starts at `i` (and is not at the very end of the track).
pub open spec fn is_epilogue(ns: Seq<Nibble>, i: int) -> bool {
    0 <= i && i + 2 < ns.len() && ns[i].value == 0xde && ns[i + 1].value == 0xaa
}

/// The nibbles from `i` on, each placed in the area that the last marker before
/// it opened (`cur` when no marker was met yet). Markers are matched greedily from
/// left to right.
pub open spec fn areas_from(ns: Seq<Nibble>, i: int, cur: AreaType) -> Seq<Nibble>
    decreases ns.len() - i,
{
    if i < 0 || i >= ns.len() {
        Seq::empty()
    } else if is_address_prologue(ns, i) {
        seq![
            relabel(ns[i], AreaType::AddressPrologue),
            relabel(ns[i + 1], AreaType::AddressPrologue),
            relabel(ns[i + 2], AreaType::AddressPrologue),
        ] + areas_from(ns, i + 3, AreaType::AddressContent)
    } else if is_data_prologue(ns, i) {
        seq![
            relabel(ns[i], AreaType::DataPrologue),
            relabel(ns[i + 1], AreaType::DataPrologue),
            relabel(ns[i + 2], AreaType::DataPrologue),
        ] + areas_from(ns, i + 3, AreaType::DataContent)
    } else if is_epilogue(ns, i) {
        let t = if cur == AreaType::AddressContent {
            AreaType::AddressEpilogue
        } else {
            AreaType::DataEpilogue
        };
        seq![relabel(ns[i], t), relabel(ns[i + 1], t)] + areas_from(ns, i + 2, AreaType::Unknown)
    } else {
        seq![relabel(ns[i], cur)] + areas_from(ns, i + 1, cur)
    }
}

/// The nibbles of a track with their areas, as `find_nibble_areas` computes them.
pub open spec fn nibble_areas(ns: Seq<Nibble>) -> Seq<Nibble> {
    if ns.len() < 3 {
        Seq::empty()
    } else {
        areas_from(ns, 0, AreaType::Unknown)
    }
}

proof fn lemma_areas_from_keeps(ns: Seq<Nibble>, i: int, cur: AreaType)
    requires
        0 <= i <= ns.len(),
    ensures
        areas_from(ns, i, cur).len() == ns.len() - i,
        forall|k: int|
            0 <= k < ns.len() - i ==> (#[trigger] areas_from(ns, i, cur)[k]).value == ns[i + k].value
                && areas_from(ns, i, cur)[k].sync_bits == ns[i + k].sync_bits,
    decreases ns.len() - i,
{
    if i < ns.len() {
        let a = areas_from(ns, i, cur);
        if is_address_prologue(ns, i) {
            lemma_areas_from_keeps(ns, i + 3, AreaType::AddressContent);
            let rest = areas_from(ns, i + 3, AreaType::AddressContent);
            assert forall|k: int| 0 <= k < ns.len() - i implies (#[trigger] a[k]).value == ns[i + k].value
                && a[k].sync_bits == ns[i + k].sync_bits by {
                if k >= 3 {
                    assert(a[k] == rest[k - 3]);
                }
            }
        } else if is_data_prologue(ns, i) {
            lemma_areas_from_keeps(ns, i + 3, AreaType::DataContent);
            let rest = areas_from(ns, i + 3, AreaType::DataContent);
            assert forall|k: int| 0 <= k < ns.len() - i implies (#[trigger] a[k]).value == ns[i + k].value
                && a[k].sync_bits == ns[i + k].sync_bits by {
                if k >= 3 {
                    assert(a[k] == rest[k - 3]);
                }
            }
        } else if is_epilogue(ns, i) {
            lemma_areas_from_keeps(ns, i + 2, AreaType::Unknown);
            let rest = areas_from(ns, i + 2, AreaType::Unknown);
            assert forall|k: int| 0 <= k < ns.len() - i implies (#[trigger] a[k]).value == ns[i + k].value
                && a[k].sync_bits == ns[i + k].sync_bits by {
                if k >= 2 {
                    assert(a[k] == rest[k - 2]);
                }
            }
        } else {
            lemma_areas_from_keeps(ns, i + 1, cur);
            let rest = areas_from(ns, i + 1, cur);
            assert forall|k: int| 0 <= k < ns.len() - i implies (#[trigger] a[k]).value == ns[i + k].value
                && a[k].sync_bits == ns[i + k].sync_bits by {
                if k >= 1 {
                    assert(a[k] == rest[k - 1]);
                }
            }
        }
    }
}

/// Finding the areas of a track's nibbles keeps the nibbles: the same values
/// with the same sync bits, in the same order; only their areas are set. A
/// track of fewer than 3 nibbles gives none.
pub proof fn lemma_nibble_areas_keep_nibbles(ns: Seq<Nibble>)
    ensures
        ns.len() < 3 ==> nibble_areas(ns).len() == 0,
        ns.len() >= 3 ==> nibble_areas(ns).len() == ns.len(),
        ns.len() >= 3 ==> forall|k: int|
            0 <= k < ns.len() ==> (#[trigger] nibble_areas(ns)[k]).value == ns[k].value
                && nibble_areas(ns)[k].sync_bits == ns[k].sync_bits,
{
    if ns.len() >= 3 {
        lemma_areas_from_keeps(ns, 0, AreaType::Unknown);
    }
}

/// How many nibbles of value `v` lie in area `t`.
pub open spec fn count_marker(ns: Seq<Nibble>, t: AreaType, v: u8) -> nat
    decreases ns.len(),
{
    if ns.len() == 0 {
        0
    } else {
        count_marker(ns.drop_last(), t, v) + if ns.last().area_type == t && ns.last().value == v {
            1nat
        } else {
            0nat
        }
    }
}

/// A standard track has 16 complete address fields and 16 complete data fields.
pub open spec fn is_standard(ns: Seq<Nibble>) -> bool {
    &&& count_marker(ns, AreaType::AddressPrologue, 0xd5) == 16
    &&& count_marker(ns, AreaType::AddressEpilogue, 0xde) == 16
    &&& count_marker(ns, AreaType::DataPrologue, 0xd5) == 16
    &&& count_marker(ns, AreaType::DataEpilogue, 0xde) == 16
}

/// No run of 0 bits in the stream is too long to be counted in a `u16`.
pub open spec fn sync_runs_fit(bits: Seq<u8>) -> bool {
    forall|i: int| 0 <= i < bits.len() ==> #[trigger] zero_run(bits, i) <= u16::MAX
}

/// The result of analyzing a track.
pub struct AnalyzedTrack {
    pub nibbles: Vec<Nibble>,
    pub track_type: TrackType,
}

impl BitStream {
    pub open spec fn view(&self) -> Seq<u8> {
        self.bits@
    }

    pub fn new(buffer: Vec<u8>) -> (r: BitStream)
        ensures
            r.bits@ == buffer@,
            !r.random,
    {
        BitStream { bits: buffer, random: false }
    }

    /// A stream standing for an empty track.
    pub fn random() -> (r: BitStream)
        ensures
            r.bits@ == seq![0u8],
            r.random,
    {
        BitStream { bits: vec![0u8], random: true }
    }

    pub fn copy(&self) -> (r: BitStream)
        ensures
            r.bits@ == self.bits@,
            r.random == self.random,
    {
        BitStream { bits: self.bits.clone(), random: self.random }
    }

    pub fn len(&self) -> (r: usize)
        ensures
            r == self.bits@.len(),
    {
        self.bits.len()
    }

    /// Read the whole track as nibbles, each followed by the count of sync bits
    /// (0 bits) after it.
    pub fn to_nibbles(&self) -> (r: Vec<Nibble>)
        requires
            sync_runs_fit(self.bits@),
        ensures
            r@ == nibbles_from(self.bits@, 0),
    {
        let ghost bits = self.bits@;
        let len = self.bits.len();
        let mut i: usize = 0;
        let mut result: Vec<Nibble> = Vec::new();
        while i < len
            invariant
                bits == self.bits@,
                len == bits.len(),
                i <= len,
                sync_runs_fit(bits),
                result@ + nibbles_from(bits, i as int) == nibbles_from(bits, 0),
            decreases len - i,
        {
            let ghost start = i as int;
            let mut value: u8 = 0;
            proof {
                lemma_high_bit(value);
            }
            while i < len && (value & 0x80) == 0
                invariant
                    bits == self.bits@,
                    len == bits.len(),
                    start <= i <= len,
                    scan_value(bits, i as int, value) == scan_value(bits, start, 0),
                decreases len - i,
            {
                proof {
                    lemma_high_bit(value);
                }
                value = (value << 1u8) | self.bits[i];
                i += 1;
            }
            proof {
                lemma_high_bit(value);
                assert(scan_value(bits, i as int, value) == (i as int, value));
            }
            let ghost j = i as int;
            let mut sync_bits: u16 = 0;
            if i < len && self.bits[i] == 0 && self.bits[(i + 1) % len] == 0 {
                while i < len && self.bits[i] == 0
                    invariant
                        bits == self.bits@,
                        len == bits.len(),
                        j <= i <= len,
                        sync_runs_fit(bits),
                        0 <= j < len,
                        sync_bits == i - j,
                        zero_run(bits, j) == (i - j) + zero_run(bits, i as int),
                    decreases len - i,
                {
                    assert(zero_run(bits, j) <= u16::MAX);
                    sync_bits += 1;
                    i += 1;
                }
                assert(sync_count(bits, j) == zero_run(bits, j));
            } else {
                assert(sync_count(bits, j) == 0);
            }
            proof {
                lemma_scan_value_advances(bits, start, 0);
                lemma_zero_run_bound(bits, j);
                assert(nibbles_from(bits, start) == seq![
                    Nibble { value, sync_bits, area_type: AreaType::Unknown },
                ] + nibbles_from(bits, i as int));
            }
            result.push(Nibble { value, sync_bits, area_type: AreaType::Unknown });
            proof {
                assert(result@ + nibbles_from(bits, i as int) == nibbles_from(bits, 0)) by {
                    assert(result@ + nibbles_from(bits, i as int) =~= result@.drop_last() + (seq![
                        Nibble { value, sync_bits, area_type: AreaType::Unknown },
                    ] + nibbles_from(bits, i as int)));
                }
            }
        }
        assert(result@ =~= result@ + nibbles_from(bits, len as int));
        result
    }

    /// Read the nibbles of the track and give each one the area that the standard
    /// markers (D5 AA 96, D5 AA AD, DE AA) show it belongs to.
    pub fn find_nibble_areas(&self) -> (r: Vec<Nibble>)
        requires
            sync_runs_fit(self.bits@),
        ensures
            r@ == nibble_areas(nibbles_from(self.bits@, 0)),
    {
        let nibbles = self.to_nibbles();
        let ghost ns = nibbles@;
        let mut result: Vec<Nibble> = Vec::new();
        if nibbles.len() < 3 {
            return result;
        }
        let n = nibbles.len();
        let mut i: usize = 0;
        let mut current_area_type = AreaType::Unknown;
        while i < n
            invariant
                ns == nibbles@,
                n == ns.len(),
                n >= 3,
                i <= n,
                result@ + areas_from(ns, i as int, current_area_type) == areas_from(
                    ns,
                    0,
                    AreaType::Unknown,
                ),
            decreases n - i,
        {
            let ghost old_result = result@;
            let ghost old_i = i as int;
            let ghost old_type = current_area_type;
            if i < n - 3 && nibbles[i].is(0xd5) && nibbles[i + 1].is(0xaa) && nibbles[i + 2].is(0x96) {
                let a0 = nibbles[i].area(AreaType::AddressPrologue);
                let a1 = nibbles[i + 1].area(AreaType::AddressPrologue);
                let a2 = nibbles[i + 2].area(AreaType::AddressPrologue);
                result.push(a0);
                result.push(a1);
                result.push(a2);
                i += 3;
                current_area_type = AreaType::AddressContent;
                proof {
                    assert(is_address_prologue(ns, old_i));
                    lemma_append3(old_result, a0, a1, a2, areas_from(ns, i as int, current_area_type));
                }
            } else if i < n - 3 && nibbles[i].is(0xd5) && nibbles[i + 1].is(0xaa) && nibbles[i
                + 2].is(0xad) {
                let a0 = nibbles[i].area(AreaType::DataPrologue);
                let a1 = nibbles[i + 1].area(AreaType::DataPrologue);
                let a2 = nibbles[i + 2].area(AreaType::DataPrologue);
                result.push(a0);
                result.push(a1);
                result.push(a2);
                i += 3;
                current_area_type = AreaType::DataContent;
                proof {
                    assert(!is_address_prologue(ns, old_i));
                    assert(is_data_prologue(ns, old_i));
                    lemma_append3(old_result, a0, a1, a2, areas_from(ns, i as int, current_area_type));
                }
            } else if i < n - 2 && nibbles[i].is(0xde) && nibbles[i + 1].is(0xaa) {
                let this_area_type = if current_area_type == AreaType::AddressContent {
                    AreaType::AddressEpilogue
                } else {
                    AreaType::DataEpilogue
                };
                let a0 = nibbles[i].area(this_area_type);
                let a1 = nibbles[i + 1].area(this_area_type);
                result.push(a0);
                result.push(a1);
                i += 2;
                current_area_type = AreaType::Unknown;
                proof {
                    assert(!is_address_prologue(ns, old_i));
                    assert(!is_data_prologue(ns, old_i));
                    assert(is_epilogue(ns, old_i));
                    lemma_append2(old_result, a0, a1, areas_from(ns, i as int, current_area_type));
                }
            } else {
                let a0 = nibbles[i].area(current_area_type);
                result.push(a0);
                i += 1;
                proof {
                    assert(!is_address_prologue(ns, old_i));
                    assert(!is_data_prologue(ns, old_i));
                    assert(!is_epilogue(ns, old_i));
                    lemma_append1(old_result, a0, areas_from(ns, i as int, current_area_type));
                }
            }
        }
        assert(result@ =~= result@ + areas_from(ns, n as int, current_area_type));
        result
    }

    /// Analyze the track to find out if it's standard, nonstandard, or empty.
    pub fn analyze_track(&self) -> (r: AnalyzedTrack)
        requires
            sync_runs_fit(self.bits@),
        ensures
            r.nibbles@ == nibble_areas(nibbles_from(self.bits@, 0)),
            r.track_type == (if self.random {
                TrackType::Empty
            } else if is_standard(r.nibbles@) {
                TrackType::Standard
            } else {
                TrackType::Nonstandard
            }),
    {
        let nibbles = self.find_nibble_areas();
        let track_type = if self.random {
            TrackType::Empty
        } else {
            let mut address_prologues_found: usize = 0;
            let mut address_epilogues_found: usize = 0;
            let mut data_prologues_found: usize = 0;
            let mut data_epilogues_found: usize = 0;
            let mut k: usize = 0;
            while k < nibbles.len()
                invariant
                    k <= nibbles@.len(),
                    address_prologues_found == count_marker(
                        nibbles@.take(k as int),
                        AreaType::AddressPrologue,
                        0xd5,
                    ),
                    address_epilogues_found == count_marker(
                        nibbles@.take(k as int),
                        AreaType::AddressEpilogue,
                        0xde,
                    ),
                    data_prologues_found == count_marker(
                        nibbles@.take(k as int),
                        AreaType::DataPrologue,
                        0xd5,
                    ),
                    data_epilogues_found == count_marker(
                        nibbles@.take(k as int),
                        AreaType::DataEpilogue,
                        0xde,
                    ),
                    address_prologues_found <= k,
                    address_epilogues_found <= k,
                    data_prologues_found <= k,
                    data_epilogues_found <= k,
                decreases nibbles@.len() - k,
            {
                let nibble = nibbles[k];
                assert(nibbles@.take(k + 1).drop_last() =~= nibbles@.take(k as int));
                match nibble.area_type {
                    AreaType::AddressPrologue => {
                        if nibble.value == 0xd5 {
                            address_prologues_found += 1;
                        }
                    },
                    AreaType::AddressEpilogue => {
                        if nibble.value == 0xde {
                            address_epilogues_found += 1;
                        }
                    },
                    AreaType::DataPrologue => {
                        if nibble.value == 0xd5 {
                            data_prologues_found += 1;
                        }
                    },
                    AreaType::DataEpilogue => {
                        if nibble.value == 0xde {
                            data_epilogues_found += 1;
                        }
                    },
                    _ => {},
                }
                k += 1;
            }
            assert(nibbles@.take(nibbles@.len() as int) =~= nibbles@);
            if address_prologues_found == 16 && address_epilogues_found == 16 && data_prologues_found
                == 16 && data_epilogues_found == 16 {
                TrackType::Standard
            } else {
                TrackType::Nonstandard
            }
        };
        AnalyzedTrack { nibbles, track_type }
    }

    /// The bit at `bit_index`; noise when the stream is random.
    pub fn next_bit(&self, bit_index: usize) -> (r: u8)
        requires
            self.random || bit_index < self.bits@.len(),
        ensures
            !self.random ==> r == self.bits@[bit_index as int],
            self.random ==> r <= 1,
    {
        if self.random {
            noise_bit()
        } else {
            self.bits[bit_index]
        }
    }

    pub fn set_bit(&mut self, bit_index: usize, value: u8)
        requires
            bit_index < old(self).bits@.len(),
        ensures
            final(self).bits@ == old(self).bits@.update(bit_index as int, value),
            final(self).random == old(self).random,
    {
        self.bits.set(bit_index, value);
    }

    /// The byte made of the eight bits from `bit_index` on, wrapping around the
    /// end of the stream.
    pub fn next_byte(&self, bit_index: usize) -> (r: u8)
        requires
            self.random || bit_index < self.bits@.len(),
            bit_index < usize::MAX,
        ensures
            !self.random ==> r == read_bits(self.bits@, bit_index as int, 8, 0),
    {
        let mut result: u8 = 0;
        let mut address: usize = bit_index;
        let mut k: usize = 0;
        let ghost bits = self.bits@;
        let n = self.len();
        while k < 8
            invariant
                k <= 8,
                n == bits.len(),
                self.random || address < bits.len(),
                address == bit_index || address == 0 || address < bits.len(),
                bit_index < usize::MAX,
                bits == self.bits@,
                !self.random ==> read_bits(bits, bit_index as int, 8, 0) == read_bits(
                    bits,
                    address as int,
                    (8 - k) as nat,
                    result,
                ),
            decreases 8 - k,
        {
            let b = self.next_bit(address);
            result = (result << 1u8) | b;
            address = if address + 1 >= n { 0 } else { address + 1 };
            k += 1;
        }
        result
    }

    /// The next nibble (a byte with its high bit set) from `bit_index` on, and
    /// the number of bits read to get it: `(number_of_bits, nibble)`.
    pub fn next_nibble(&self, bit_index: usize) -> (r: (usize, u8))
        requires
            !self.random,
            bit_index < self.bits@.len(),
            self.bits@.len() + 128 <= usize::MAX,
            nibble_reachable(self.bits@, bit_index as int),
        ensures
            r.0 >= 1,
            r.1 == nibble_acc(self.bits@, bit_index as int, r.0 as nat),
            r.1 >= 0x80,
            forall|k: nat| 1 <= k < r.0 ==> #[trigger] nibble_acc(self.bits@, bit_index as int, k) < 0x80,
    {
        let ghost bits = self.bits@;
        let ghost len = bits.len() as int;
        let mut result: u8 = 0;
        let mut count: usize = 0;
        let mut address: usize = bit_index;
        let ghost mut since: int = 0;
        proof {
            lemma_high_bit(result);
        }
        while (result & 0x80) != 0x80
            invariant
                bits == self.bits@,
                len == bits.len(),
                !self.random,
                bit_index < len,
                len + 128 <= usize::MAX,
                nibble_reachable(bits, bit_index as int),
                address == nibble_pos(len, bit_index as int, count as int),
                result == nibble_acc(bits, bit_index as int, count as nat),
                forall|k: nat| 1 <= k < count ==> #[trigger] nibble_acc(bits, bit_index as int, k) < 0x80,
                since >= 0,
                result == 0 ==> since == 0,
                result == 0 ==> forall|j: int| bit_index <= j < bit_index + count && j < len ==> bits[j] == 0,
                result == 0 && bit_index + count > len ==> bits[0] == 0,
                result == 0 ==> count <= len - bit_index,
                result != 0 ==> result >= since + 1,
                result != 0 ==> count <= len - bit_index + 1 + since,
            decreases len - bit_index + 128 - count,
        {
            proof {
                lemma_high_bit(result);
            }
            let b = self.next_bit(address);
            let ghost old_result = result;
            let ghost old_count = count;
            result = (result << 1u8) | b;
            count += 1;
            proof {
                assert(result == shift_in(old_result, b));
                assert(nibble_acc(bits, bit_index as int, count as nat) == shift_in(
                    nibble_acc(bits, bit_index as int, old_count as nat),
                    bits[nibble_pos(len, bit_index as int, old_count as int)],
                ));
                if old_result != 0 {
                    lemma_shift_in_keeps_one(old_result, b);
                    since = since + 1;
                } else {
                    if b != 0 {
                        lemma_shift_in_nonzero(b);
                    } else {
                        assert(result == 0) by (bit_vector)
                            requires
                                result == ((0u8 << 1u8) | 0u8) as u8,
                        ;
                    }
                }
                if result == 0 && count > len - bit_index {
                    // every bit that can be read is 0: impossible
                    assert(old_count == len - bit_index);
                    assert(address == 0);
                    assert(forall|j: int| bit_index <= j < len ==> bits[j] == 0);
                    assert(!nibble_reachable(bits, bit_index as int));
                }
            }
            address = if bit_index + count >= self.len() { 0 } else { bit_index + count };
        }
        proof {
            lemma_high_bit(result);
        }
        (count, result)
    }
}


/// The content of an entire disk: the tracks' bit streams, and the map (TMAP)
/// from each of the 160 quarter-track positions to its stream (0xFF: no track).
pub struct BitStreams {
    pub bit_streams: Vec<BitStream>,
    pub tmap: [u8; MAX_PHASE],
    pub disk_info: DiskInfo,
    pub random: BitStream,
}

impl BitStreams {
    /// `phase` is a quarter-track position whose stream can be found.
    pub open spec fn phase_ok(&self, phase: int) -> bool {
        &&& 0 <= phase < MAX_PHASE
        &&& (self.tmap@[phase] != 0xff ==> (self.tmap@[phase] as int) < self.bit_streams@.len())
    }

    /// The stream under the head at quarter-track `phase`.
    pub open spec fn stream_at(&self, phase: int) -> BitStream {
        if self.tmap@[phase] == 0xff {
            self.random
        } else {
            self.bit_streams@[self.tmap@[phase] as int]
        }
    }

    pub fn new(bit_streams: Vec<BitStream>, tmap: [u8; MAX_PHASE], disk_info: DiskInfo) -> (r:
        BitStreams)
        ensures
            r.bit_streams@ == bit_streams@,
            r.tmap@ == tmap@,
            r.disk_info == disk_info,
            r.random.random,
            r.random.bits@ == seq![0u8],
    {
        BitStreams { bit_streams, tmap, disk_info, random: BitStream::random() }
    }

    pub fn default() -> (r: BitStreams)
        ensures
            r.bit_streams@.len() == 0,
            forall|p: int| 0 <= p < MAX_PHASE ==> #[trigger] r.tmap@[p] == 0,
            r.random.random,
            r.random.bits@ == seq![0u8],
    {
        BitStreams {
            bit_streams: Vec::new(),
            tmap: [0; MAX_PHASE],
            disk_info: DiskInfo::default(),
            random: BitStream::random(),
        }
    }

    pub fn copy(&self) -> (r: BitStreams)
        ensures
            r.bit_streams@.len() == self.bit_streams@.len(),
            forall|k: int|
                0 <= k < self.bit_streams@.len() ==> (#[trigger] r.bit_streams@[k]).bits@
                    == self.bit_streams@[k].bits@ && r.bit_streams@[k].random
                    == self.bit_streams@[k].random,
            r.tmap@ == self.tmap@,
            r.disk_info.same_as(self.disk_info),
            r.random.random,
            r.random.bits@ == seq![0u8],
    {
        let mut streams: Vec<BitStream> = Vec::new();
        let mut i: usize = 0;
        while i < self.bit_streams.len()
            invariant
                i <= self.bit_streams@.len(),
                streams@.len() == i,
                forall|k: int|
                    0 <= k < i ==> (#[trigger] streams@[k]).bits@ == self.bit_streams@[k].bits@
                        && streams@[k].random == self.bit_streams@[k].random,
            decreases self.bit_streams@.len() - i,
        {
            streams.push(self.bit_streams[i].copy());
            i += 1;
        }
        BitStreams {
            bit_streams: streams,
            tmap: self.tmap,
            disk_info: self.disk_info.copy(),
            random: BitStream::random(),
        }
    }

    /// The stream for quarter-track `phase`.
    pub fn get_stream(&self, phase: usize) -> (r: &BitStream)
        requires
            self.phase_ok(phase as int),
        ensures
            *r == self.stream_at(phase as int),
    {
        let t = self.tmap[phase];
        if t != 0xff {
            &self.bit_streams[t as usize]
        } else {
            &self.random
        }
    }

    /// The stream for quarter-track `phase`, to be changed in place.
    pub fn get_stream_mut(&mut self, phase: usize) -> (r: &mut BitStream)
        requires
            old(self).phase_ok(phase as int),
        ensures
            *r == old(self).stream_at(phase as int),
            old(self).tmap@[phase as int] == 0xff ==> *final(self) == (BitStreams {
                random: *final(r),
                ..*old(self)
            }),
            old(self).tmap@[phase as int] != 0xff ==> *final(self) == (BitStreams {
                bit_streams: final(self).bit_streams,
                ..*old(self)
            }) && final(self).bit_streams@ == old(self).bit_streams@.update(
                old(self).tmap@[phase as int] as int,
                *final(r),
            ),
    {
        let t = self.tmap[phase];
        if t != 0xff {
            &mut self.bit_streams[t as usize]
        } else {
            &mut self.random
        }
    }

    /// Write `bit` at `bit_position` of the stream of quarter-track `phase_160`.
    pub fn set_bit_and_advance(&mut self, phase_160: usize, bit_position: usize, bit: u8)
        requires
            phase_160 < MAX_PHASE,
            (old(self).tmap@[phase_160 as int] as int) < old(self).bit_streams@.len(),
            bit_position < old(self).bit_streams@[old(self).tmap@[phase_160 as int] as int].bits@.len(),
        ensures
            ({
                let t = old(self).tmap@[phase_160 as int] as int;
                &&& final(self).bit_streams@.len() == old(self).bit_streams@.len()
                &&& forall|k: int|
                    0 <= k < old(self).bit_streams@.len() && k != t ==> #[trigger] final(self).bit_streams@[k]
                        == old(self).bit_streams@[k]
                &&& final(self).bit_streams@[t].bits@ == old(self).bit_streams@[t].bits@.update(
                    bit_position as int,
                    bit,
                )
                &&& final(self).bit_streams@[t].random == old(self).bit_streams@[t].random
            }),
            final(self).tmap@ == old(self).tmap@,
            final(self).disk_info == old(self).disk_info,
            final(self).random == old(self).random,
    {
        let t = self.tmap[phase_160] as usize;
        self.bit_streams[t].set_bit(bit_position, bit);
    }

    /// Number of bits under quarter-track `phase`: 1 where there is no track
    /// (the one-bit stream that stands for an empty track).
    pub open spec fn stream_len(&self, phase: int) -> int {
        if self.tmap@[phase] == 0xff {
            1
        } else {
            self.bit_streams@[self.tmap@[phase] as int].bits@.len() as int
        }
    }

    /// Number of bits of the stream for quarter-track `phase`.
    pub fn len(&self, phase: usize) -> (r: usize)
        requires
            self.phase_ok(phase as int),
        ensures
            r == self.stream_len(phase as int),
    {
        let t = self.tmap[phase];
        if t == 0xff {
            1
        } else {
            self.bit_streams[t as usize].len()
        }
    }
}

} // verus!
