use vstd::prelude::*;
use vstd::string::{StrSliceExecFns, StringExecFns};

verus! {

/// Format of a disk image.
#[derive(Clone, Copy, Debug, PartialEq, Eq, Structural)]
pub enum WozVersion {
    Unknown,
    Dsk,
    Woz1,
    Woz2,
}

/// What the library knows of a disk image: its name, path, format, metadata.
#[derive(Clone, Debug)]
pub struct DiskInfo {
    pub name: Option<String>,
    pub woz_version: WozVersion,
    pub path: String,
    /// Metadata (key, value) pairs, in the order they were read; a later pair
    /// overrides an earlier one with the same key.
    pub map: Vec<(String, String)>,
    pub is_write_protected: bool,
}

/// The value that `key` maps to: the last pair with that key wins.
pub open spec fn lookup(m: Seq<(String, String)>, key: Seq<char>) -> Option<String>
    decreases m.len(),
{
    if m.len() == 0 {
        None
    } else if m.last().0@ == key {
        Some(m.last().1)
    } else {
        lookup(m.drop_last(), key)
    }
}

/// Length of `p.take(k)` once the trailing '/' are removed.
pub open spec fn trimmed_len(p: Seq<char>, k: int) -> int
    decreases k,
{
    if k > 0 && p[k - 1] == '/' {
        trimmed_len(p, k - 1)
    } else {
        k
    }
}

/// Start of the path component that ends at `k`.
pub open spec fn component_start(p: Seq<char>, k: int) -> int
    decreases k,
{
    if k > 0 && p[k - 1] != '/' {
        component_start(p, k - 1)
    } else {
        k
    }
}

/// The last component of `p.take(k)`, as a path's components give it: empty
/// components and "." are skipped, but for a "." that starts the path; "/"
/// when only separators are left, "" for nothing at all.
pub open spec fn last_component_upto(p: Seq<char>, k: int) -> Seq<char>
    decreases k,
{
    let e = trimmed_len(p, k);
    if k <= 0 || e <= 0 {
        if k <= 0 {
            Seq::empty()
        } else {
            seq!['/']
        }
    } else {
        let s = component_start(p, e);
        if 0 < s < k && e - s == 1 && p[s] == '.' {
            last_component_upto(p, s)
        } else {
            p.subrange(s, e)
        }
    }
}

/// The last component of a '/'-separated path (see `last_component_upto`).
pub open spec fn last_component(p: Seq<char>) -> Seq<char> {
    last_component_upto(p, p.len() as int)
}

proof fn lemma_trimmed_len(p: Seq<char>, k: int)
    requires
        0 <= k <= p.len(),
    ensures
        0 <= trimmed_len(p, k) <= k,
        trimmed_len(p, k) > 0 ==> p[trimmed_len(p, k) - 1] != '/',
    decreases k,
{
    if k > 0 && p[k - 1] == '/' {
        lemma_trimmed_len(p, k - 1);
    }
}

proof fn lemma_component_start(p: Seq<char>, k: int)
    requires
        0 <= k <= p.len(),
    ensures
        0 <= component_start(p, k) <= k,
        k > 0 && p[k - 1] != '/' ==> component_start(p, k) < k,
        component_start(p, k) > 0 ==> p[component_start(p, k) - 1] == '/',
    decreases k,
{
    if k > 0 && p[k - 1] != '/' {
        lemma_component_start(p, k - 1);
    }
}

/// Find the value of `key` in a list of metadata pairs (the last pair wins).
pub fn lookup_key(m: &Vec<(String, String)>, key: &String) -> (r: Option<String>)
    ensures
        r == lookup(m@, key@),
{
    let mut i = m.len();
    assert(m@.take(i as int) =~= m@);
    while i > 0
        invariant
            i <= m@.len(),
            lookup(m@, key@) == lookup(m@.take(i as int), key@),
        decreases i,
    {
        assert(m@.take(i as int).drop_last() =~= m@.take(i - 1));
        assert(m@.take(i as int).last() == m@[i - 1]);
        if m[i - 1].0 == *key {
            return Some(m[i - 1].1.clone());
        }
        i -= 1;
    }
    assert(m@.take(0) =~= Seq::<(String, String)>::empty());
    None
}

/// The last component of a '/'-separated path.
pub fn last_path_component(p: &str) -> (r: &str)
    ensures
        r@ == last_component(p@),
{
    let len = p.unicode_len();
    let mut k = len;
    loop
        invariant
            k <= len,
            len == p@.len(),
            last_component_upto(p@, k as int) == last_component(p@),
        decreases k,
    {
        let mut e = k;
        while e > 0 && p.get_char(e - 1) == '/'
            invariant
                e <= k <= len,
                len == p@.len(),
                trimmed_len(p@, k as int) == trimmed_len(p@, e as int),
            decreases e,
        {
            e -= 1;
        }
        proof {
            lemma_trimmed_len(p@, k as int);
        }
        if k == 0 {
            return p.substring_char(0, 0);
        }
        if e == 0 {
            proof {
                reveal_strlit("/");
            }
            return "/";
        }
        let mut start = e;
        while start > 0 && p.get_char(start - 1) != '/'
            invariant
                start <= e <= k <= len,
                len == p@.len(),
                component_start(p@, e as int) == component_start(p@, start as int),
            decreases start,
        {
            start -= 1;
        }
        proof {
            lemma_component_start(p@, e as int);
        }
        if 0 < start && e - start == 1 && p.get_char(start) == '.' {
            k = start;
        } else {
            return p.substring_char(start, e);
        }
    }
}

impl Default for DiskInfo {
    fn default() -> (r: DiskInfo)
        ensures
            r.name is None,
            r.path@.len() == 0,
            r.map@.len() == 0,
            r.woz_version == WozVersion::Unknown,
            !r.is_write_protected,
    {
        DiskInfo {
            name: None,
            path: String::new(),
            map: Vec::new(),
            woz_version: WozVersion::Unknown,
            is_write_protected: false,
        }
    }
}

/// A copy of a string with the same characters.
pub fn copy_string(s: &String) -> (r: String)
    ensures
        r@ == s@,
{
    s.as_str().to_owned()
}

impl DiskInfo {
    /// A field by field copy.
    pub fn copy(&self) -> (r: DiskInfo)
        ensures
            r.same_as(*self),
    {
        let name = match &self.name {
            Some(n) => Some(copy_string(n)),
            None => None,
        };
        let mut map: Vec<(String, String)> = Vec::new();
        let mut i: usize = 0;
        while i < self.map.len()
            invariant
                i <= self.map@.len(),
                map@.len() == i,
                forall|k: int|
                    0 <= k < i ==> #[trigger] map@[k].0@ == self.map@[k].0@ && map@[k].1@
                        == self.map@[k].1@,
            decreases self.map@.len() - i,
        {
            map.push((copy_string(&self.map[i].0), copy_string(&self.map[i].1)));
            i += 1;
        }
        DiskInfo {
            name,
            woz_version: self.woz_version,
            path: copy_string(&self.path),
            map,
            is_write_protected: self.is_write_protected,
        }
    }

    /// Two disk infos hold the same text and flags.
    pub open spec fn same_as(&self, other: DiskInfo) -> bool {
        &&& (self.name is None <==> other.name is None)
        &&& (self.name matches Some(n) ==> n@ == other.name->0@)
        &&& self.woz_version == other.woz_version
        &&& self.path@ == other.path@
        &&& self.map@.len() == other.map@.len()
        &&& forall|k: int|
            0 <= k < self.map@.len() ==> #[trigger] self.map@[k].0@ == other.map@[k].0@
                && self.map@[k].1@ == other.map@[k].1@
        &&& self.is_write_protected == other.is_write_protected
    }

    pub fn new(name: &str, path: &str) -> (r: DiskInfo)
        ensures
            r.name matches Some(n) && n@ == name@,
            r.path@ == path@,
            r.map@.len() == 0,
            r.woz_version == WozVersion::Unknown,
            r.is_write_protected,
    {
        DiskInfo {
            name: Some(name.to_owned()),
            path: path.to_owned(),
            map: Vec::new(),
            woz_version: WozVersion::Unknown,
            is_write_protected: true,
        }
    }

    pub fn new2(
        name: Option<String>,
        path: &str,
        map: Vec<(String, String)>,
        disk_type: WozVersion,
        is_write_protected: bool,
    ) -> (r: DiskInfo)
        ensures
            r.name == name,
            r.path@ == path@,
            r.map@ == map@,
            r.woz_version == disk_type,
            r.is_write_protected == is_write_protected,
    {
        DiskInfo { name, path: path.to_owned(), map, woz_version: disk_type, is_write_protected }
    }

    /// A disk known only by its path.
    pub fn n(path: &str) -> (r: DiskInfo)
        ensures
            r.name is None,
            r.path@ == path@,
            r.map@.len() == 0,
            r.woz_version == WozVersion::Unknown,
            r.is_write_protected,
    {
        DiskInfo {
            name: None,
            path: path.to_owned(),
            map: Vec::new(),
            woz_version: WozVersion::Unknown,
            is_write_protected: true,
        }
    }

    pub fn path(&self) -> (r: String)
        ensures
            r@ == self.path@,
    {
        self.path.as_str().to_owned()
    }

    /// The name to show for this disk: its own name, else its "title"
    /// metadata, else the last component of its path.
    pub open spec fn spec_name(&self) -> Seq<char> {
        match self.name {
            Some(n) => n@,
            None => match lookup(self.map@, "title"@) {
                Some(t) => t@,
                None => last_component(self.path@),
            },
        }
    }

    pub fn name(&self) -> (r: &str)
        ensures
            r@ == self.spec_name(),
    {
        match &self.name {
            Some(n) => n.as_str(),
            None => {
                let title = String::from_str("title");
                let mut i = self.map.len();
                assert(self.map@.take(i as int) =~= self.map@);
                while i > 0
                    invariant
                        i <= self.map@.len(),
                        title@ == "title"@,
                        self.name is None,
                        lookup(self.map@, "title"@) == lookup(self.map@.take(i as int), "title"@),
                    decreases i,
                {
                    assert(self.map@.take(i as int).drop_last() =~= self.map@.take(i - 1));
                    assert(self.map@.take(i as int).last() == self.map@[i - 1]);
                    if self.map[i - 1].0 == title {
                        return self.map[i - 1].1.as_str();
                    }
                    i -= 1;
                }
                assert(self.map@.take(0) =~= Seq::<(String, String)>::empty());
                last_path_component(self.path.as_str())
            },
        }
    }

    pub fn side(&self) -> (r: Option<String>)
        ensures
            r == lookup(self.map@, "side"@),
    {
        let side = String::from_str("side");
        lookup_key(&self.map, &side)
    }
}

} // verus!
