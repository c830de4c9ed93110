use vstd::prelude::*;
use vstd::string::*;

use crate::profile::{match_point_in, Profile};

verus! {

/// One file delivered by a mod: where it lies in the mod's storage and the
/// point where it is placed in the game.
#[derive(Debug)]
pub struct FileEntry {
    /// Path of the file relative to the mod's storage directory.
    pub target: String,
    /// Placement point: `@name`, a literal relative path, or empty when the
    /// file has no placement.
    pub point: String,
}

/// The manifest of one installed mod.
#[derive(Debug)]
pub struct ModSpec {
    pub name: String,
    pub url: Option<String>,
    pub files: Vec<FileEntry>,
}

/// Index of the last `c` in `s`, or -1 where `s` holds none.
pub open spec fn last_index(s: Seq<char>, c: char) -> int
    decreases s.len(),
{
    if s.len() == 0 {
        -1
    } else if s[s.len() - 1] == c {
        s.len() - 1
    } else {
        last_index(s.subrange(0, s.len() - 1), c)
    }
}

/// The last component of a `/`-separated path.
pub open spec fn file_name(p: Seq<char>) -> Seq<char> {
    p.subrange(last_index(p, '/') + 1, p.len() as int)
}

/// The extension of a path: what follows the last `.` of its file name,
/// where that `.` is not the name's first character.
pub open spec fn extension(p: Seq<char>) -> Option<Seq<char>> {
    let name = file_name(p);
    let d = last_index(name, '.');
    if d > 0 {
        Some(name.subrange(d + 1, name.len() as int))
    } else {
        None
    }
}

/// The point that classification gives a file: that of the first layout
/// root with a mod directory accepting the file's extension, else empty.
pub open spec fn classified_point(layout: Seq<crate::profile::Layout>, target: Seq<char>) -> Seq<
    char,
> {
    match extension(target) {
        Some(ext) => match match_point_in(layout, ext) {
            Some(p) => p,
            None => Seq::empty(),
        },
        None => Seq::empty(),
    }
}

/// Whether some file of the manifest has no placement.
pub open spec fn has_unplaced(files: Seq<FileEntry>) -> bool {
    exists|i: int| 0 <= i < files.len() && #[trigger] files[i].point@.len() == 0
}

proof fn lemma_last_index(s: Seq<char>, c: char, k: int)
    requires
        -1 <= k < s.len(),
        k >= 0 ==> s[k] == c,
        forall|j: int| k < j < s.len() ==> s[j] != c,
    ensures
        last_index(s, c) == k,
    decreases s.len(),
{
    if s.len() > 0 && s[s.len() - 1] != c {
        let t = s.subrange(0, s.len() - 1);
        assert forall|j: int| k < j < t.len() implies t[j] != c by {
            assert(t[j] == s[j]);
        }
        lemma_last_index(t, c, k);
    }
}

/// Index of the last `c` in `s`, or -1.
fn find_last(s: &str, c: char) -> (r: i64)
    requires
        s@.len() < i64::MAX,
    ensures
        r == last_index(s@, c),
        -1 <= r < s@.len(),
{
    let n = s.unicode_len();
    let mut i: usize = n;
    while i > 0
        invariant
            0 <= i <= n,
            n == s@.len(),
            n < i64::MAX,
            forall|j: int| i <= j < n ==> s@[j] != c,
        decreases i,
    {
        if s.get_char(i - 1) == c {
            proof {
                lemma_last_index(s@, c, i - 1);
            }
            return (i - 1) as i64;
        }
        i = i - 1;
    }
    proof {
        lemma_last_index(s@, c, -1);
    }
    -1
}

/// The extension of a `/`-separated path (see [`extension`]).
pub fn extension_of(path: &str) -> (r: Option<String>)
    requires
        path@.len() < i64::MAX,
    ensures
        match r {
            Some(e) => extension(path@) == Some(e@),
            None => extension(path@) is None,
        },
{
    let n = path.unicode_len();
    let slash = find_last(path, '/');
    let name = path.substring_char((slash + 1) as usize, n);
    let m = name.unicode_len();
    let dot = find_last(name, '.');
    if dot > 0 {
        Some(String::from_str(name.substring_char((dot + 1) as usize, m)))
    } else {
        None
    }
}

impl ModSpec {
    /// The manifest of mod `name` whose storage holds the files `targets`
    /// (relative paths, in order): each file gets the point that
    /// classification by extension gives it, or an empty point.
    pub fn classify(name: &str, profile: &Profile, targets: &Vec<String>) -> (r: ModSpec)
        requires
            forall|i: int| 0 <= i < targets@.len() ==> #[trigger] targets@[i]@.len() < i64::MAX,
        ensures
            r.name@ == name@,
            r.url is None,
            r.files@.len() == targets@.len(),
            forall|i: int|
                0 <= i < targets@.len() ==> {
                    &&& #[trigger] r.files@[i].target@ == targets@[i]@
                    &&& r.files@[i].point@ == classified_point(profile.layout@, targets@[i]@)
                },
    {
        let mut files: Vec<FileEntry> = Vec::new();
        let mut i: usize = 0;
        while i < targets.len()
            invariant
                0 <= i <= targets@.len(),
                files@.len() == i,
                forall|j: int| 0 <= j < targets@.len() ==> #[trigger] targets@[j]@.len() < i64::MAX,
                forall|j: int|
                    0 <= j < i ==> {
                        &&& #[trigger] files@[j].target@ == targets@[j]@
                        &&& files@[j].point@ == classified_point(profile.layout@, targets@[j]@)
                    },
            decreases targets@.len() - i,
        {
            let target = &targets[i];
            let point = profile.classify_point(target.as_str());
            files.push(FileEntry { target: target.clone(), point });
            i = i + 1;
        }
        ModSpec { name: String::from_str(name), url: None, files }
    }

    /// Whether some file has no placement; such a mod cannot be activated.
    pub fn is_blocked(&self) -> (r: bool)
        ensures
            r == has_unplaced(self.files@),
    {
        let mut i: usize = 0;
        while i < self.files.len()
            invariant
                0 <= i <= self.files@.len(),
                forall|j: int| 0 <= j < i ==> self.files@[j].point@.len() != 0,
            decreases self.files@.len() - i,
        {
            if self.files[i].point.unicode_len() == 0 {
                assert(self.files@[i as int].point@.len() == 0);
                return true;
            }
            i = i + 1;
        }
        false
    }

    /// Indices of the files that have no placement, in order.
    pub fn unplaced(&self) -> (r: Vec<usize>)
        ensures
            forall|k: int| 0 <= k < r@.len() ==> r@[k] < self.files@.len(),
            forall|k: int| 0 <= k < r@.len() ==> #[trigger] self.files@[r@[k] as int].point@.len() == 0,
            forall|i: int|
                0 <= i < self.files@.len() && #[trigger] self.files@[i].point@.len() == 0 ==> r@.contains(i as usize),
            forall|k: int, l: int| 0 <= k < l < r@.len() ==> r@[k] < r@[l],
    {
        let mut r: Vec<usize> = Vec::new();
        let mut i: usize = 0;
        while i < self.files.len()
            invariant
                0 <= i <= self.files@.len(),
                forall|k: int| 0 <= k < r@.len() ==> r@[k] < i,
                forall|k: int| 0 <= k < r@.len() ==> #[trigger] self.files@[r@[k] as int].point@.len() == 0,
                forall|j: int| 0 <= j < i && #[trigger] self.files@[j].point@.len() == 0 ==> r@.contains(j as usize),
                forall|k: int, l: int| 0 <= k < l < r@.len() ==> r@[k] < r@[l],
            decreases self.files@.len() - i,
        {
            let ghost before = r@;
            if self.files[i].point.unicode_len() == 0 {
                r.push(i);
            }
            assert forall|j: int|
                0 <= j <= i && #[trigger] self.files@[j].point@.len() == 0 implies r@.contains(
                j as usize,
            ) by {
                if j < i {
                    let k = choose|k: int| 0 <= k < before.len() && before[k] == j as usize;
                    assert(r@[k] == j as usize);
                } else {
                    assert(r@[r@.len() - 1] == j as usize);
                }
            }
            i = i + 1;
        }
        r
    }

    /// Gives the file at `index` the point `point`.
    pub fn set_point(&mut self, index: usize, point: String)
        requires
            index < old(self).files@.len(),
        ensures
            final(self).name == old(self).name,
            final(self).url == old(self).url,
            final(self).files@.len() == old(self).files@.len(),
            final(self).files@[index as int].target == old(self).files@[index as int].target,
            final(self).files@[index as int].point == point,
            forall|i: int|
                0 <= i < old(self).files@.len() && i != index ==> #[trigger] final(self).files@[i]
                    == old(self).files@[i],
    {
        self.files[index].point = point;
    }
}

impl Profile {
    /// The point that classification gives the file at `target`.
    pub fn classify_point(&self, target: &str) -> (r: String)
        requires
            target@.len() < i64::MAX,
        ensures
            r@ == classified_point(self.layout@, target@),
    {
        match extension_of(target) {
            Some(ext) => {
                let mut i: usize = 0;
                assert(self.layout@.subrange(0, self.layout@.len() as int) =~= self.layout@);
                while i < self.layout.len()
                    invariant
                        0 <= i <= self.layout@.len(),
                        extension(target@) == Some(ext@),
                        match_point_in(self.layout@, ext@) == match_point_in(
                            self.layout@.subrange(i as int, self.layout@.len() as int),
                            ext@,
                        ),
                    decreases self.layout@.len() - i,
                {
                    let ghost rest = self.layout@.subrange(i as int, self.layout@.len() as int);
                    assert(rest[0] == self.layout@[i as int]);
                    assert(rest.subrange(1, rest.len() as int) =~= self.layout@.subrange(
                        i + 1,
                        self.layout@.len() as int,
                    ));
                    if let Some(point) = self.layout[i].find_matching_moddir_point(ext.as_str()) {
                        return point;
                    }
                    i = i + 1;
                }
                String::new()
            },
            None => String::new(),
        }
    }
}

} // verus!
