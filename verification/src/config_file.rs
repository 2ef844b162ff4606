use vstd::prelude::*;
use std::collections::HashSet;
use crate::constants::{DEFAULT_MAGNIFICATION, DEFAULT_SPEED_HZ};
use crate::roms::RomType;

verus! {

broadcast use vstd::std_specs::hash::group_hash_axioms;

/// A breakpoint of the debugger.
#[derive(Clone, Copy, Debug, PartialEq, Eq, Structural)]
pub struct Breakpoint {
    pub address: u16,
    pub enabled: bool,
}

/// The user's settings, kept in a file of the configuration directory.
/// Each change made through these methods is to be saved to that file.
pub struct ConfigFile {
    pub emulator_speed_hz: u64,
    pub disk_directories: Vec<String>,
    pub drive_1: Option<String>,
    pub drive_2: Option<String>,
    pub hard_drive_1: Option<String>,
    pub hard_drive_2: Option<String>,
    /// The tab to start in (its position among the main tabs).
    pub tab: usize,
    pub magnification: Option<u16>,
    pub breakpoints: Vec<Breakpoint>,
    /// The addresses of `breakpoints`, for a quick lookup.
    pub breakpoints_hash: HashSet<u16>,
    pub rom_type: Option<RomType>,
}

/// The value of a hexadecimal digit (either case), if `c` is one.
pub open spec fn hex_digit_value(c: char) -> Option<int> {
    if '0' <= c && c <= '9' {
        Some(c as int - '0' as int)
    } else if 'a' <= c && c <= 'f' {
        Some(c as int - 'a' as int + 10)
    } else if 'A' <= c && c <= 'F' {
        Some(c as int - 'A' as int + 10)
    } else {
        None
    }
}

/// The number that the hexadecimal digits `s` write.
pub open spec fn hex_value(s: Seq<char>) -> int
    decreases s.len(),
{
    if s.len() == 0 {
        0
    } else {
        hex_value(s.drop_last()) * 16 + hex_digit_value(s.last())->0
    }
}

/// What `u16::from_str_radix(s, 16)` gives: an optional `+`, then at least
/// one hexadecimal digit and nothing else, for a number below 0x10000.
pub open spec fn parse_hex_u16(s: Seq<char>) -> Option<u16> {
    let d = if s.len() > 0 && s[0] == '+' {
        s.drop_first()
    } else {
        s
    };
    if d.len() > 0 && (forall|i: int| 0 <= i < d.len() ==> #[trigger] hex_digit_value(d[i]) is Some) && hex_value(d)
        < 0x10000 {
        Some(hex_value(d) as u16)
    } else {
        None
    }
}

/// Calls `u16::from_str_radix(s, 16)`. Its documentation: an optional `+`
/// sign (a `-` is an invalid digit for an unsigned type) followed by digits
/// of the radix, any other character, an empty string or a number too large
/// for the type being an error.
#[verifier::external_body]
fn u16_from_hex(s: &str) -> (r: Option<u16>)
    ensures
        r == parse_hex_u16(s@),
{
    u16::from_str_radix(s, 16).ok()
}

/// The set of the addresses of `bps`.
pub open spec fn breakpoint_addresses(bps: Seq<Breakpoint>) -> Set<u16> {
    Set::new(|a: u16| exists|j: int| 0 <= j < bps.len() && #[trigger] bps[j].address == a)
}

/// Whether `k` is the position of the first breakpoint at `a` in `bps`.
pub open spec fn is_first_at(bps: Seq<Breakpoint>, a: u16, k: int) -> bool {
    &&& 0 <= k < bps.len()
    &&& bps[k].address == a
    &&& forall|j: int| 0 <= j < k ==> #[trigger] bps[j].address != a
}

/// `bps` without its first breakpoint at `a` (unchanged when there is none).
pub open spec fn breakpoints_after_delete(bps: Seq<Breakpoint>, a: u16) -> Seq<Breakpoint> {
    if exists|k: int| is_first_at(bps, a, k) {
        bps.remove(choose|k: int| is_first_at(bps, a, k))
    } else {
        bps
    }
}

proof fn lemma_first_at_unique(bps: Seq<Breakpoint>, a: u16, k1: int, k2: int)
    requires
        is_first_at(bps, a, k1),
        is_first_at(bps, a, k2),
    ensures
        k1 == k2,
{
    if k1 < k2 {
        assert(bps[k1].address != a);
    } else if k2 < k1 {
        assert(bps[k2].address != a);
    }
}

/// `s` with no change but to `drive`, `hard_drive_1`, ... as `set_drive` says.
pub open spec fn drive_set(
    old_drives: (Option<String>, Option<String>, Option<String>, Option<String>),
    is_hard_drive: bool,
    drive_number: usize,
    path: Option<String>,
) -> (Option<String>, Option<String>, Option<String>, Option<String>) {
    let (d1, d2, h1, h2) = old_drives;
    if is_hard_drive {
        if drive_number == 0 {
            (d1, d2, path, h2)
        } else {
            (d1, d2, h1, path)
        }
    } else {
        if drive_number == 0 {
            (path, d2, h1, h2)
        } else {
            (d1, path, h1, h2)
        }
    }
}

fn clone_path(p: &Option<String>) -> (r: Option<String>)
    ensures
        r == *p,
{
    match p {
        Some(s) => Some(s.clone()),
        None => None,
    }
}

impl Default for ConfigFile {
    fn default() -> (r: ConfigFile)
        ensures
            r.emulator_speed_hz == DEFAULT_SPEED_HZ,
            r.magnification == Some(DEFAULT_MAGNIFICATION),
            r.disk_directories@.len() == 0,
            r.drive_1 is None && r.drive_2 is None && r.hard_drive_1 is None && r.hard_drive_2 is None,
            r.tab == 0,
            r.breakpoints@.len() == 0,
            r.breakpoints_hash@ == Set::<u16>::empty(),
            r.rom_type == Some(RomType::Apple2Enhanced),
    {
        ConfigFile {
            emulator_speed_hz: DEFAULT_SPEED_HZ,
            magnification: Some(DEFAULT_MAGNIFICATION),
            disk_directories: Vec::new(),
            drive_1: None,
            drive_2: None,
            hard_drive_1: None,
            hard_drive_2: None,
            tab: 0,
            breakpoints: Vec::new(),
            breakpoints_hash: HashSet::new(),
            rom_type: Some(RomType::Apple2Enhanced),
        }
    }
}

impl ConfigFile {
    /// The drives and hard drives, in the order drive 1, drive 2, hard drive
    /// 1, hard drive 2.
    pub open spec fn drives(&self) -> (Option<String>, Option<String>, Option<String>, Option<String>) {
        (self.drive_1, self.drive_2, self.hard_drive_1, self.hard_drive_2)
    }

    /// Whether `breakpoints_hash` holds exactly the addresses of `breakpoints`.
    pub open spec fn wf(&self) -> bool {
        self.breakpoints_hash@ == breakpoint_addresses(self.breakpoints@)
    }

    pub fn magnification(&self) -> (r: u16)
        ensures
            r == match self.magnification {
                Some(m) => m,
                None => DEFAULT_MAGNIFICATION,
            },
    {
        match self.magnification {
            Some(m) => m,
            None => DEFAULT_MAGNIFICATION,
        }
    }

    pub fn rom_type(&self) -> (r: RomType)
        ensures
            r == match self.rom_type {
                Some(rt) => rt,
                None => RomType::Apple2Enhanced,
            },
    {
        match self.rom_type {
            Some(rt) => rt,
            None => RomType::Apple2Enhanced,
        }
    }

    pub fn hard_drive_1(&self) -> (r: Option<String>)
        ensures
            r == self.hard_drive_1,
    {
        clone_path(&self.hard_drive_1)
    }

    pub fn hard_drive_2(&self) -> (r: Option<String>)
        ensures
            r == self.hard_drive_2,
    {
        clone_path(&self.hard_drive_2)
    }

    pub fn drive_1(&self) -> (r: Option<String>)
        ensures
            r == self.drive_1,
    {
        clone_path(&self.drive_1)
    }

    pub fn drive_2(&self) -> (r: Option<String>)
        ensures
            r == self.drive_2,
    {
        clone_path(&self.drive_2)
    }

    pub fn breakpoints(&self) -> (r: &Vec<Breakpoint>)
        ensures
            r@ == self.breakpoints@,
    {
        &self.breakpoints
    }

    pub fn disk_directories(&self) -> (r: &Vec<String>)
        ensures
            r@ == self.disk_directories@,
    {
        &self.disk_directories
    }

    pub fn emulator_speed_hz(&self) -> (r: u64)
        ensures
            r == self.emulator_speed_hz,
    {
        self.emulator_speed_hz
    }

    /// Make `breakpoints_hash` hold the addresses of `breakpoints`.
    pub fn recalculate(&mut self)
        ensures
            final(self).wf(),
            *final(self) == (ConfigFile { breakpoints_hash: final(self).breakpoints_hash, ..*old(self) }),
    {
        self.breakpoints_hash.clear();
        let mut i: usize = 0;
        while i < self.breakpoints.len()
            invariant
                i <= self.breakpoints@.len(),
                self.breakpoints == old(self).breakpoints,
                *self == (ConfigFile { breakpoints_hash: self.breakpoints_hash, ..*old(self) }),
                self.breakpoints_hash@ == breakpoint_addresses(self.breakpoints@.take(i as int)),
            decreases self.breakpoints@.len() - i,
        {
            let a = self.breakpoints[i].address;
            self.breakpoints_hash.insert(a);
            i += 1;
            proof {
                let bps = self.breakpoints@;
                assert(self.breakpoints_hash@ =~= breakpoint_addresses(bps.take(i as int))) by {
                    assert forall|x: u16| breakpoint_addresses(bps.take(i as int)).contains(x) implies
                        self.breakpoints_hash@.contains(x) by {
                        let j = choose|j: int| 0 <= j < i && #[trigger] bps.take(i as int)[j].address == x;
                        if j < i - 1 {
                            assert(bps.take(i - 1)[j].address == x);
                        }
                    }
                    assert forall|x: u16| self.breakpoints_hash@.contains(x) implies
                        breakpoint_addresses(bps.take(i as int)).contains(x) by {
                        if x == a {
                            assert(bps.take(i as int)[i - 1].address == x);
                        } else {
                            let j = choose|j: int| 0 <= j < i - 1 && #[trigger] bps.take(i - 1)[j].address == x;
                            assert(bps.take(i as int)[j].address == x);
                        }
                    }
                }
            }
        }
        proof {
            assert(self.breakpoints@.take(self.breakpoints@.len() as int) =~= self.breakpoints@);
        }
    }

    /// Add a breakpoint, enabled, at the address that `bp` writes in
    /// hexadecimal. Returns whether it was added (`bp` is no such address
    /// otherwise, and nothing changes).
    pub fn add_breakpoint(&mut self, bp: String) -> (r: bool)
        ensures
            r == (parse_hex_u16(bp@) is Some),
            r ==> final(self).breakpoints@ == old(self).breakpoints@.push(
                Breakpoint { address: parse_hex_u16(bp@)->0, enabled: true },
            ),
            r ==> final(self).wf(),
            r ==> *final(self) == (ConfigFile {
                breakpoints: final(self).breakpoints,
                breakpoints_hash: final(self).breakpoints_hash,
                ..*old(self)
            }),
            !r ==> *final(self) == *old(self),
    {
        match u16_from_hex(bp.as_str()) {
            Some(address) => {
                self.breakpoints.push(Breakpoint { address, enabled: true });
                self.recalculate();
                true
            },
            None => false,
        }
    }

    /// Remove the first breakpoint at `address`, if there is one.
    pub fn delete_breakpoint(&mut self, address: u16)
        ensures
            final(self).wf(),
            *final(self) == (ConfigFile {
                breakpoints: final(self).breakpoints,
                breakpoints_hash: final(self).breakpoints_hash,
                ..*old(self)
            }),
            final(self).breakpoints@ == breakpoints_after_delete(old(self).breakpoints@, address),
    {
        let mut i: usize = 0;
        while i < self.breakpoints.len() && self.breakpoints[i].address != address
            invariant
                i <= self.breakpoints@.len(),
                self.breakpoints == old(self).breakpoints,
                forall|j: int| 0 <= j < i ==> #[trigger] self.breakpoints@[j].address != address,
            decreases self.breakpoints@.len() - i,
        {
            i += 1;
        }
        if i < self.breakpoints.len() {
            proof {
                let bps = old(self).breakpoints@;
                assert(is_first_at(bps, address, i as int));
                let k = choose|k: int| is_first_at(bps, address, k);
                lemma_first_at_unique(bps, address, i as int, k);
            }
            self.breakpoints.remove(i);
        } else {
            proof {
                let bps = old(self).breakpoints@;
                if exists|k: int| is_first_at(bps, address, k) {
                    let k = choose|k: int| is_first_at(bps, address, k);
                    assert(bps[k].address != address);
                }
            }
        }
        self.recalculate();
    }

    /// Remember `tab_index` as the tab to start in.
    pub fn set_tab(&mut self, tab_index: usize)
        ensures
            *final(self) == (ConfigFile { tab: tab_index, ..*old(self) }),
    {
        self.tab = tab_index;
    }

    /// Remember `path` as the disk of drive `drive_number` (0 or 1), a hard
    /// drive or a floppy drive.
    pub fn set_drive(&mut self, is_hard_drive: bool, drive_number: usize, path: Option<String>)
        requires
            drive_number < 2,
        ensures
            final(self).drives() == drive_set(old(self).drives(), is_hard_drive, drive_number, path),
            *final(self) == (ConfigFile {
                drive_1: final(self).drive_1,
                drive_2: final(self).drive_2,
                hard_drive_1: final(self).hard_drive_1,
                hard_drive_2: final(self).hard_drive_2,
                ..*old(self)
            }),
    {
        if is_hard_drive {
            if drive_number == 0 {
                self.hard_drive_1 = path;
            } else {
                self.hard_drive_2 = path;
            }
        } else {
            if drive_number == 0 {
                self.drive_1 = path;
            } else {
                self.drive_2 = path;
            }
        }
    }

    /// Remember `directories` as the directories of disks.
    pub fn set_disk_directories(&mut self, directories: Vec<String>)
        ensures
            *final(self) == (ConfigFile { disk_directories: directories, ..*old(self) }),
    {
        self.disk_directories = directories;
    }
}

/// Adding a breakpoint at an address where there was none, then deleting the
/// breakpoint at that address, gives the breakpoints back as they were.
pub proof fn lemma_add_then_delete_breakpoint(bps: Seq<Breakpoint>, a: u16)
    requires
        forall|j: int| 0 <= j < bps.len() ==> #[trigger] bps[j].address != a,
    ensures
        breakpoints_after_delete(bps.push(Breakpoint { address: a, enabled: true }), a) == bps,
{
    let pushed = bps.push(Breakpoint { address: a, enabled: true });
    assert(is_first_at(pushed, a, bps.len() as int));
    let k = choose|k: int| is_first_at(pushed, a, k);
    lemma_first_at_unique(pushed, a, bps.len() as int, k);
    assert(pushed.remove(bps.len() as int) =~= bps);
}

} // verus!
