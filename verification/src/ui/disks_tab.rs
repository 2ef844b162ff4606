use vstd::prelude::*;
use crate::disk::disk::{ends_with, str_ends_with};
use crate::text::{
    contains, lemma_seq_le_total, lemma_seq_le_transitive, lemma_seq_le_reflexive, lowercase, seq_le, str_contains, str_le, to_lowercase,
};

verus! {

/// A disk file found in the directory of disks.
pub struct DisplayedDisk {
    pub file_name: String,
    pub path: String,
}

impl DisplayedDisk {
    pub fn copy(&self) -> (r: DisplayedDisk)
        ensures
            r == *self,
    {
        DisplayedDisk { file_name: self.file_name.clone(), path: self.path.clone() }
    }
}

/// The key by which disks are listed: the lower-case file name.
pub open spec fn name_key(d: DisplayedDisk) -> Seq<char> {
    lowercase(d.file_name@)
}

/// Whether a file is a disk, by its name: `woz`, `dsk` or `hdv` at the end,
/// in either case.
pub open spec fn is_disk_name(name: Seq<char>) -> bool {
    ends_with(lowercase(name), "woz"@) || ends_with(lowercase(name), "dsk"@) || ends_with(lowercase(name), "hdv"@)
}

/// See `is_disk_name`.
pub fn is_disk_file(name: &str) -> (r: bool)
    ensures
        r == is_disk_name(name@),
{
    let lower = to_lowercase(name);
    str_ends_with(lower.as_str(), "woz") || str_ends_with(lower.as_str(), "dsk") || str_ends_with(
        lower.as_str(),
        "hdv",
    )
}

/// The disks known not to boot or not to work properly.
pub open spec fn buggy_disk_names() -> Seq<Seq<char>> {
    seq![
        "Stargate"@,
        "DOS 3.2"@,
        "Akalabeth"@,
        "Batman"@,
        "Algernon"@,
        "Micro invaders"@,
        "Bug Attack"@,
        "Seafox"@,
        "Micro Invaders"@,
        "Newsroom"@,
        "Pest Patrol"@,
    ]
}

/// A disk is buggy when its name holds one of the buggy disks' names, the
/// case of the letters aside.
pub open spec fn is_buggy_name(name: Seq<char>) -> bool {
    exists|k: int|
        0 <= k < buggy_disk_names().len() && contains(lowercase(name), lowercase(#[trigger] buggy_disk_names()[k]))
}

/// See `is_buggy_name`.
pub fn is_buggy(name: &str) -> (r: bool)
    ensures
        r == is_buggy_name(name@),
{
    let names: [&str; 11] = [
        "Stargate",
        "DOS 3.2",
        "Akalabeth",
        "Batman",
        "Algernon",
        "Micro invaders",
        "Bug Attack",
        "Seafox",
        "Micro Invaders",
        "Newsroom",
        "Pest Patrol",
    ];
    assert(forall|k: int| 0 <= k < 11 ==> (#[trigger] names@[k])@ == buggy_disk_names()[k]);
    let lower = to_lowercase(name);
    let mut i: usize = 0;
    while i < 11
        invariant
            i <= 11,
            lower@ == lowercase(name@),
            forall|k: int| 0 <= k < 11 ==> (#[trigger] names@[k])@ == buggy_disk_names()[k],
            forall|k: int| 0 <= k < i ==> !contains(lower@, lowercase(#[trigger] buggy_disk_names()[k])),
        decreases 11 - i,
    {
        let d = to_lowercase(names[i]);
        assert(d@ == lowercase(buggy_disk_names()[i as int]));
        if str_contains(lower.as_str(), d.as_str()) {
            return true;
        }
        i += 1;
    }
    false
}

/// The color in which a disk's name is listed.
#[derive(Clone, Copy, Debug, PartialEq, Eq, Structural)]
pub enum NameColor {
    Red,
    Yellow,
    LightBlue,
}

/// Buggy disks are listed in red, WOZ images in yellow, the others in light
/// blue.
pub fn disk_name_color(name: &str) -> (r: NameColor)
    ensures
        r == (if is_buggy_name(name@) {
            NameColor::Red
        } else if ends_with(lowercase(name@), "woz"@) {
            NameColor::Yellow
        } else {
            NameColor::LightBlue
        }),
{
    if is_buggy(name) {
        NameColor::Red
    } else {
        let lower = to_lowercase(name);
        if str_ends_with(lower.as_str(), "woz") {
            NameColor::Yellow
        } else {
            NameColor::LightBlue
        }
    }
}

/// Whether `d` is listed under the filter `filter`: no filter, or its lower-case
/// name contains the filter.
pub open spec fn shown(d: DisplayedDisk, filter: Seq<char>) -> bool {
    filter.len() == 0 || contains(lowercase(d.file_name@), filter)
}

/// The disks of `all` that the filter lets through, in order.
pub open spec fn filtered(all: Seq<DisplayedDisk>, filter: Seq<char>) -> Seq<DisplayedDisk>
    decreases all.len(),
{
    if all.len() == 0 {
        all
    } else {
        let rest = filtered(all.drop_last(), filter);
        if shown(all.last(), filter) {
            rest.push(all.last())
        } else {
            rest
        }
    }
}

/// `s` is in the order of the disks' lower-case names.
pub open spec fn sorted_by_name(s: Seq<DisplayedDisk>) -> bool {
    forall|i: int, j: int| 0 <= i < j < s.len() ==> seq_le(#[trigger] name_key(s[i]), #[trigger] name_key(s[j]))
}

/// `s` holds the disks of `orig`, each once, and two disks with the same
/// lower-case name are in the order they have in `orig` (`idx` gives, for
/// each disk of `s`, its position in `orig`).
pub open spec fn stable_perm_by(s: Seq<DisplayedDisk>, orig: Seq<DisplayedDisk>, idx: Seq<int>) -> bool {
    &&& s.len() == orig.len()
    &&& idx.len() == s.len()
    &&& forall|k: int| 0 <= k < s.len() ==> 0 <= #[trigger] idx[k] < orig.len() && s[k] == orig[idx[k]]
    &&& forall|a: int, b: int| 0 <= a < b < s.len() ==> #[trigger] idx[a] != #[trigger] idx[b]
    &&& forall|a: int, b: int|
        0 <= a < b < s.len() && #[trigger] name_key(s[a]) == #[trigger] name_key(s[b]) ==> idx[a] < idx[b]
}

/// `s` is `orig` sorted by lower-case name, keeping the order of disks of the
/// same name: what a stable sort gives.
pub open spec fn stably_sorted(s: Seq<DisplayedDisk>, orig: Seq<DisplayedDisk>) -> bool {
    sorted_by_name(s) && exists|idx: Seq<int>| stable_perm_by(s, orig, idx)
}

/// `s` without the disks whose file name is the one of the disk just
/// before them.
pub open spec fn dedup_names(s: Seq<DisplayedDisk>) -> Seq<DisplayedDisk>
    decreases s.len(),
{
    if s.len() == 0 {
        s
    } else {
        let rest = dedup_names(s.drop_last());
        if s.len() >= 2 && s[s.len() - 1].file_name@ == s[s.len() - 2].file_name@ {
            rest
        } else {
            rest.push(s.last())
        }
    }
}

/// The directory of disks and the disks listed from it.
pub struct DisksTab {
    directory: Option<String>,
    filter: String,
    all_disks: Vec<DisplayedDisk>,
    displayed_disks: Vec<DisplayedDisk>,
}

/// Sort `disks` by their lower-case names.
fn sort_disks(disks: Vec<DisplayedDisk>) -> (r: Vec<DisplayedDisk>)
    ensures
        stably_sorted(r@, disks@),
{
    let mut keys: Vec<String> = Vec::new();
    let mut result: Vec<DisplayedDisk> = Vec::new();
    let ghost mut idx: Seq<int> = Seq::empty();
    let mut i: usize = 0;
    while i < disks.len()
        invariant
            i <= disks@.len(),
            keys@.len() == result@.len(),
            forall|k: int| 0 <= k < keys@.len() ==> #[trigger] keys@[k]@ == name_key(result@[k]),
            sorted_by_name(result@),
            stable_perm_by(result@, disks@.take(i as int), idx),
        decreases disks@.len() - i,
    {
        let d = disks[i].copy();
        let key = to_lowercase(d.file_name.as_str());
        let mut j: usize = 0;
        while j < result.len() && str_le(keys[j].as_str(), key.as_str())
            invariant
                j <= result@.len(),
                keys@.len() == result@.len(),
                forall|k: int| 0 <= k < keys@.len() ==> #[trigger] keys@[k]@ == name_key(result@[k]),
                forall|k: int| 0 <= k < j ==> seq_le(#[trigger] name_key(result@[k]), key@),
            decreases result@.len() - j,
        {
            j += 1;
        }
        proof {
            let s = result@;
            let x = d;
            assert(key@ == name_key(x));
            assert forall|a: int, b: int| 0 <= a < b < s.len() + 1 implies seq_le(
                #[trigger] name_key(s.insert(j as int, x)[a]),
                #[trigger] name_key(s.insert(j as int, x)[b]),
            ) by {
                let t = s.insert(j as int, x);
                if b < j {
                    assert(t[a] == s[a] && t[b] == s[b]);
                } else if b == j {
                    assert(t[a] == s[a]);
                } else if a == j {
                    // the disk at j is after `x`
                    assert(t[b] == s[b - 1]);
                    assert(!seq_le(name_key(s[j as int]), key@));
                    lemma_seq_le_total(name_key(s[j as int]), key@);
                    if b - 1 > j {
                        lemma_seq_le_transitive(key@, name_key(s[j as int]), name_key(s[b - 1]));
                    }
                } else if a < j {
                    assert(t[a] == s[a] && t[b] == s[b - 1]);
                } else {
                    assert(t[a] == s[a - 1] && t[b] == s[b - 1]);
                }
            }
            // the disks from j on come after `x`
            assert forall|b: int| j <= b < s.len() implies !seq_le(#[trigger] name_key(s[b]), key@) by {
                if b > j && seq_le(name_key(s[b]), key@) {
                    lemma_seq_le_transitive(name_key(s[j as int]), name_key(s[b]), key@);
                }
            }
            let orig = disks@.take(i + 1);
            let t = s.insert(j as int, x);
            let idx2 = idx.insert(j as int, i as int);
            assert forall|k: int| 0 <= k < t.len() implies 0 <= #[trigger] idx2[k] < orig.len() && t[k]
                == orig[idx2[k]] by {
                if k < j {
                    assert(t[k] == s[k] && idx2[k] == idx[k]);
                    assert(disks@.take(i as int)[idx[k]] == orig[idx[k]]);
                } else if k > j {
                    assert(t[k] == s[k - 1] && idx2[k] == idx[k - 1]);
                    assert(disks@.take(i as int)[idx[k - 1]] == orig[idx[k - 1]]);
                }
            }
            assert forall|a: int, b: int| 0 <= a < b < t.len() implies #[trigger] idx2[a] != #[trigger] idx2[b] by {
                if a < j && b > j {
                    assert(idx2[a] == idx[a] && idx2[b] == idx[b - 1]);
                } else if b < j {
                    assert(idx2[a] == idx[a] && idx2[b] == idx[b]);
                } else if a > j {
                    assert(idx2[a] == idx[a - 1] && idx2[b] == idx[b - 1]);
                }
            }
            assert forall|a: int, b: int|
                0 <= a < b < t.len() && #[trigger] name_key(t[a]) == #[trigger] name_key(t[b]) implies idx2[a]
                < idx2[b] by {
                if a < j && b > j {
                    assert(idx2[a] == idx[a] && idx2[b] == idx[b - 1] && t[a] == s[a] && t[b] == s[b - 1]);
                } else if b < j {
                    assert(idx2[a] == idx[a] && idx2[b] == idx[b] && t[a] == s[a] && t[b] == s[b]);
                } else if a > j {
                    assert(idx2[a] == idx[a - 1] && idx2[b] == idx[b - 1] && t[a] == s[a - 1] && t[b] == s[b - 1]);
                } else if a == j {
                    assert(t[b] == s[b - 1]);
                    lemma_seq_le_reflexive(key@);
                    assert(!seq_le(name_key(s[b - 1]), key@));
                } else {
                    assert(idx2[a] == idx[a]);
                }
            }
            idx = idx2;
        }
        keys.insert(j, key);
        result.insert(j, d);
        i += 1;
    }
    assert(disks@.take(disks@.len() as int) =~= disks@);
    result
}

/// `s` without the disks whose file name is the one of the disk before them.
fn dedup_disks(s: Vec<DisplayedDisk>) -> (r: Vec<DisplayedDisk>)
    ensures
        r@ == dedup_names(s@),
{
    let mut result: Vec<DisplayedDisk> = Vec::new();
    let mut i: usize = 0;
    while i < s.len()
        invariant
            i <= s@.len(),
            result@ == dedup_names(s@.take(i as int)),
        decreases s@.len() - i,
    {
        proof {
            assert(s@.take(i + 1).drop_last() =~= s@.take(i as int));
        }
        if i == 0 || s[i].file_name != s[i - 1].file_name {
            result.push(s[i].copy());
        }
        i += 1;
    }
    assert(s@.take(s@.len() as int) =~= s@);
    result
}

impl DisksTab {
    pub closed spec fn directory_spec(&self) -> Option<String> {
        self.directory
    }

    pub closed spec fn filter_spec(&self) -> Seq<char> {
        self.filter@
    }

    pub closed spec fn all_disks_spec(&self) -> Seq<DisplayedDisk> {
        self.all_disks@
    }

    pub closed spec fn displayed_spec(&self) -> Seq<DisplayedDisk> {
        self.displayed_disks@
    }

    pub fn default() -> (r: DisksTab)
        ensures
            r.directory_spec() is None,
            r.filter_spec().len() == 0,
            r.all_disks_spec().len() == 0,
            r.displayed_spec().len() == 0,
    {
        DisksTab { directory: None, filter: String::new(), all_disks: Vec::new(), displayed_disks: Vec::new() }
    }

    /// The disks listed, those of the directory that the filter lets through.
    pub fn displayed_disks(&self) -> (r: &Vec<DisplayedDisk>)
        ensures
            r@ == self.displayed_spec(),
    {
        &self.displayed_disks
    }

    pub fn filter(&self) -> (r: &String)
        ensures
            r@ == self.filter_spec(),
    {
        &self.filter
    }

    /// Recompute the list of disks shown from the filter.
    fn recalculate(&mut self)
        ensures
            final(self).displayed_spec() == filtered(old(self).all_disks_spec(), old(self).filter_spec()),
            final(self).all_disks_spec() == old(self).all_disks_spec(),
            final(self).filter_spec() == old(self).filter_spec(),
            final(self).directory_spec() == old(self).directory_spec(),
    {
        let mut displayed: Vec<DisplayedDisk> = Vec::new();
        let empty = self.filter.as_str().unicode_len() == 0;
        let mut i: usize = 0;
        while i < self.all_disks.len()
            invariant
                i <= self.all_disks@.len(),
                empty == (self.filter@.len() == 0),
                displayed@ == filtered(self.all_disks@.take(i as int), self.filter@),
            decreases self.all_disks@.len() - i,
        {
            proof {
                assert(self.all_disks@.take(i + 1).drop_last() =~= self.all_disks@.take(i as int));
            }
            let keep = empty || {
                let lower = to_lowercase(self.all_disks[i].file_name.as_str());
                str_contains(lower.as_str(), self.filter.as_str())
            };
            if keep {
                displayed.push(self.all_disks[i].copy());
            }
            i += 1;
        }
        assert(self.all_disks@.take(self.all_disks@.len() as int) =~= self.all_disks@);
        self.displayed_disks = displayed;
    }

    /// Take `filter` as the new filter.
    pub fn update_filter(&mut self, filter: String)
        ensures
            final(self).filter_spec() == filter@,
            final(self).displayed_spec() == filtered(old(self).all_disks_spec(), filter@),
            final(self).all_disks_spec() == old(self).all_disks_spec(),
            final(self).directory_spec() == old(self).directory_spec(),
    {
        self.filter = filter;
        self.recalculate();
    }

    /// Take `directory` as the directory of disks; `found` are the disk files
    /// found under it. They are listed by lower-case name, a disk whose name
    /// is that of the one before it being left out.
    pub fn update_directory(&mut self, directory: Option<String>, found: Vec<DisplayedDisk>)
        ensures
            final(self).directory_spec() == directory,
            final(self).filter_spec() == old(self).filter_spec(),
            directory is None ==> final(self).all_disks_spec().len() == 0,
            directory is Some ==> exists|s: Seq<DisplayedDisk>|
                stably_sorted(s, found@) && final(self).all_disks_spec() == dedup_names(s),
            final(self).displayed_spec() == filtered(final(self).all_disks_spec(), old(self).filter_spec()),
    {
        let is_some = directory.is_some();
        self.directory = directory;
        if is_some {
            let sorted = sort_disks(found);
            let ghost s = sorted@;
            self.all_disks = dedup_disks(sorted);
            assert(stably_sorted(s, found@) && self.all_disks@ == dedup_names(s));
        } else {
            self.all_disks = Vec::new();
        }
        self.recalculate();
    }
}

} // verus!
