use vstd::prelude::*;
use vstd::string::*;

use crate::mod_spec::{has_unplaced, FileEntry, ModSpec};
use crate::names::{contains_string, strings_view};
use crate::paths::{join, join_path};
use crate::profile::{resolve, Layout, Profile};

verus! {

/// A mod of a preset as found in storage: its storage directory and its
/// manifest, where one exists.
#[derive(Debug)]
pub struct InstalledMod {
    pub storage_path: String,
    pub spec: Option<ModSpec>,
}

/// A symlink as a pair of paths: the storage file and where it appears in
/// the game's tree.
pub type Link = (Seq<char>, Seq<char>);

/// The characters of each path of a list of links.
pub open spec fn links_view(r: Seq<(String, String)>) -> Seq<Link> {
    r.map_values(|p: (String, String)| (p.0@, p.1@))
}

/// The link for one file: from its storage path to
/// `<game>/<resolved point>/<target>`, where its point resolves.
pub open spec fn entry_link(layout: Seq<Layout>, game: Seq<char>, storage: Seq<char>, e: FileEntry) -> Option<
    Link,
> {
    match resolve(layout, e.point@) {
        Some(rel) => Some((join(storage, e.target@), join(join(game, rel), e.target@))),
        None => None,
    }
}

/// The links of the files whose point resolves, in order.
pub open spec fn file_links(
    layout: Seq<Layout>,
    game: Seq<char>,
    storage: Seq<char>,
    files: Seq<FileEntry>,
) -> Seq<Link>
    decreases files.len(),
{
    if files.len() == 0 {
        Seq::empty()
    } else {
        let rest = file_links(layout, game, storage, files.subrange(1, files.len() as int));
        match entry_link(layout, game, storage, files[0]) {
            Some(l) => seq![l] + rest,
            None => rest,
        }
    }
}

/// The links that activating a mod creates: none where it has no manifest
/// or where some file has no placement, else one per file whose point
/// resolves.
pub open spec fn mod_links(layout: Seq<Layout>, game: Seq<char>, storage: Seq<char>, spec: Option<ModSpec>) -> Seq<
    Link,
> {
    match spec {
        Some(s) => if has_unplaced(s.files@) {
            Seq::empty()
        } else {
            file_links(layout, game, storage, s.files@)
        },
        None => Seq::empty(),
    }
}

/// The destinations that deactivating a mod looks at: those of every file
/// of its manifest whose point resolves.
pub open spec fn mod_destinations(layout: Seq<Layout>, game: Seq<char>, storage: Seq<char>, spec: Option<ModSpec>) -> Seq<
    Seq<char>,
> {
    match spec {
        Some(s) => file_links(layout, game, storage, s.files@).map_values(|l: Link| l.1),
        None => Seq::empty(),
    }
}

/// The links that activating the mods of a preset creates, mod after mod.
pub open spec fn preset_links(layout: Seq<Layout>, game: Seq<char>, mods: Seq<InstalledMod>) -> Seq<Link>
    decreases mods.len(),
{
    if mods.len() == 0 {
        Seq::empty()
    } else {
        mod_links(layout, game, mods[0].storage_path@, mods[0].spec) + preset_links(
            layout,
            game,
            mods.subrange(1, mods.len() as int),
        )
    }
}

/// The destinations that deactivating the mods of a preset looks at.
pub open spec fn preset_destinations(layout: Seq<Layout>, game: Seq<char>, mods: Seq<InstalledMod>) -> Seq<
    Seq<char>,
>
    decreases mods.len(),
{
    if mods.len() == 0 {
        Seq::empty()
    } else {
        mod_destinations(layout, game, mods[0].storage_path@, mods[0].spec) + preset_destinations(
            layout,
            game,
            mods.subrange(1, mods.len() as int),
        )
    }
}

/// The paths removed when each candidate whose flag is set is removed in
/// turn: a candidate already removed is not removed again.
pub open spec fn removals(candidates: Seq<Seq<char>>, is_link: Seq<bool>) -> Seq<Seq<char>>
    decreases candidates.len(),
{
    if candidates.len() == 0 || is_link.len() == 0 {
        Seq::empty()
    } else {
        let earlier = removals(candidates.drop_last(), is_link.drop_last());
        if is_link.last() && !earlier.contains(candidates.last()) {
            earlier.push(candidates.last())
        } else {
            earlier
        }
    }
}

proof fn lemma_file_links_step(
    layout: Seq<Layout>,
    game: Seq<char>,
    storage: Seq<char>,
    files: Seq<FileEntry>,
    i: int,
)
    requires
        0 <= i < files.len(),
    ensures
        file_links(layout, game, storage, files.subrange(i, files.len() as int)) == (match entry_link(
            layout,
            game,
            storage,
            files[i],
        ) {
            Some(l) => seq![l],
            None => Seq::<Link>::empty(),
        }) + file_links(layout, game, storage, files.subrange(i + 1, files.len() as int)),
{
    let rest = files.subrange(i, files.len() as int);
    assert(rest[0] == files[i]);
    assert(rest.subrange(1, rest.len() as int) =~= files.subrange(i + 1, files.len() as int));
    match entry_link(layout, game, storage, files[i]) {
        Some(l) => {},
        None => {
            assert(Seq::<Link>::empty() + file_links(
                layout,
                game,
                storage,
                files.subrange(i + 1, files.len() as int),
            ) =~= file_links(layout, game, storage, files.subrange(i + 1, files.len() as int)));
        },
    }
}

/// Where every file's point resolves, there is one link per file, in order.
proof fn lemma_file_links_total(
    layout: Seq<Layout>,
    game: Seq<char>,
    storage: Seq<char>,
    files: Seq<FileEntry>,
)
    requires
        forall|i: int| 0 <= i < files.len() ==> #[trigger] resolve(layout, files[i].point@) is Some,
    ensures
        file_links(layout, game, storage, files).len() == files.len(),
        forall|i: int|
            0 <= i < files.len() ==> Some(#[trigger] file_links(layout, game, storage, files)[i])
                == entry_link(layout, game, storage, files[i]),
    decreases files.len(),
{
    if files.len() > 0 {
        let rest = files.subrange(1, files.len() as int);
        assert forall|i: int| 0 <= i < rest.len() implies #[trigger] resolve(
            layout,
            rest[i].point@,
        ) is Some by {
            assert(rest[i] == files[i + 1]);
        }
        lemma_file_links_total(layout, game, storage, rest);
        assert(resolve(layout, files[0].point@) is Some);
        assert forall|i: int| 0 <= i < files.len() implies Some(
            #[trigger] file_links(layout, game, storage, files)[i],
        ) == entry_link(layout, game, storage, files[i]) by {
            if i > 0 {
                assert(rest[i - 1] == files[i]);
            }
        }
    }
}

impl Profile {
    /// The link for one file, where its point resolves.
    fn entry_link(&self, storage_path: &str, entry: &FileEntry) -> (r: Option<(String, String)>)
        ensures
            match r {
                Some(p) => entry_link(self.layout@, self.game.path@, storage_path@, *entry) == Some(
                    (p.0@, p.1@),
                ),
                None => entry_link(self.layout@, self.game.path@, storage_path@, *entry) is None,
            },
    {
        match self.resolve_point(entry.point.as_str()) {
            Some(rel) => {
                let source = join_path(storage_path, entry.target.as_str());
                let dir = join_path(self.game.path.as_str(), rel.as_str());
                let destination = join_path(dir.as_str(), entry.target.as_str());
                Some((source, destination))
            },
            None => None,
        }
    }

    /// The links of the files of `files` whose point resolves, in order.
    fn file_links(&self, storage_path: &str, files: &Vec<FileEntry>) -> (r: Vec<(String, String)>)
        ensures
            links_view(r@) == file_links(self.layout@, self.game.path@, storage_path@, files@),
    {
        let ghost layout = self.layout@;
        let ghost game = self.game.path@;
        let mut r: Vec<(String, String)> = Vec::new();
        let mut i: usize = 0;
        assert(files@.subrange(0, files@.len() as int) =~= files@);
        assert(links_view(r@) + file_links(layout, game, storage_path@, files@) =~= file_links(
            layout,
            game,
            storage_path@,
            files@,
        ));
        while i < files.len()
            invariant
                0 <= i <= files@.len(),
                layout == self.layout@,
                game == self.game.path@,
                file_links(layout, game, storage_path@, files@) == links_view(r@) + file_links(
                    layout,
                    game,
                    storage_path@,
                    files@.subrange(i as int, files@.len() as int),
                ),
            decreases files@.len() - i,
        {
            proof {
                lemma_file_links_step(layout, game, storage_path@, files@, i as int);
            }
            let ghost before = r@;
            match self.entry_link(storage_path, &files[i]) {
                Some(link) => {
                    r.push(link);
                    assert(links_view(r@) =~= links_view(before) + seq![
                        (r@.last().0@, r@.last().1@),
                    ]);
                },
                None => {},
            }
            assert(file_links(layout, game, storage_path@, files@) =~= links_view(r@) + file_links(
                layout,
                game,
                storage_path@,
                files@.subrange(i + 1, files@.len() as int),
            ));
            i = i + 1;
        }
        assert(files@.subrange(i as int, files@.len() as int) =~= Seq::<FileEntry>::empty());
        assert(links_view(r@) =~= file_links(layout, game, storage_path@, files@));
        r
    }

    /// The symlinks, as `(source, destination)` pairs in file order, that
    /// activating a mod stored at `storage_path` creates. There are none
    /// where the mod has no manifest or where any of its files has an empty
    /// point; otherwise each file whose point resolves is linked from
    /// `<storage_path>/<target>` to `<game path>/<resolved point>/<target>`,
    /// and a file whose point does not resolve is passed over.
    pub fn activate_mod(&self, storage_path: &str, spec: &Option<ModSpec>) -> (r: Vec<(String, String)>)
        ensures
            links_view(r@) == mod_links(self.layout@, self.game.path@, storage_path@, *spec),
            match *spec {
                Some(s) => {
                    &&& has_unplaced(s.files@) ==> r@.len() == 0
                    &&& !has_unplaced(s.files@) && (forall|i: int|
                        0 <= i < s.files@.len() ==> #[trigger] resolve(
                            self.layout@,
                            s.files@[i].point@,
                        ) is Some) ==> {
                        &&& r@.len() == s.files@.len()
                        &&& forall|i: int|
                            0 <= i < s.files@.len() ==> {
                                &&& (#[trigger] r@[i]).0@ == join(storage_path@, s.files@[i].target@)
                                &&& r@[i].1@ == join(
                                    join(
                                        self.game.path@,
                                        resolve(self.layout@, s.files@[i].point@)->0,
                                    ),
                                    s.files@[i].target@,
                                )
                            }
                    }
                },
                None => r@.len() == 0,
            },
    {
        match spec {
            Some(s) => {
                if s.is_blocked() {
                    Vec::new()
                } else {
                    let r = self.file_links(storage_path, &s.files);
                    proof {
                        if forall|i: int|
                            0 <= i < s.files@.len() ==> #[trigger] resolve(
                                self.layout@,
                                s.files@[i].point@,
                            ) is Some {
                            lemma_file_links_total(
                                self.layout@,
                                self.game.path@,
                                storage_path@,
                                s.files@,
                            );
                            assert forall|i: int| 0 <= i < s.files@.len() implies {
                                &&& (#[trigger] r@[i]).0@ == join(storage_path@, s.files@[i].target@)
                                &&& r@[i].1@ == join(
                                    join(
                                        self.game.path@,
                                        resolve(self.layout@, s.files@[i].point@)->0,
                                    ),
                                    s.files@[i].target@,
                                )
                            } by {
                                assert(links_view(r@)[i] == (r@[i].0@, r@[i].1@));
                            }
                        }
                    }
                    r
                }
            },
            None => Vec::new(),
        }
    }
}

/// Which candidates are symlinks in `fs`.
pub open spec fn link_flags(fs: Map<Seq<char>, Entry>, candidates: Seq<Seq<char>>) -> Seq<bool> {
    candidates.map_values(|p: Seq<char>| fs.contains_key(p) && fs[p] is Symlink)
}

/// What stands at a path of a game's tree.
pub enum Entry {
    /// A symlink to the given storage file.
    Symlink(Seq<char>),
    /// A regular file or a directory.
    Regular,
}

/// The tree after creating the links in order: creation stops at the first
/// link whose destination is already taken, as creating a symlink over an
/// existing path fails.
pub open spec fn link_all(fs: Map<Seq<char>, Entry>, links: Seq<Link>) -> Map<Seq<char>, Entry>
    decreases links.len(),
{
    if links.len() == 0 {
        fs
    } else if fs.contains_key(links[0].1) {
        fs
    } else {
        link_all(
            fs.insert(links[0].1, Entry::Symlink(links[0].0)),
            links.subrange(1, links.len() as int),
        )
    }
}

/// Whether creating the links in order succeeds for every one of them.
pub open spec fn links_fit(fs: Map<Seq<char>, Entry>, links: Seq<Link>) -> bool
    decreases links.len(),
{
    if links.len() == 0 {
        true
    } else if fs.contains_key(links[0].1) {
        false
    } else {
        links_fit(
            fs.insert(links[0].1, Entry::Symlink(links[0].0)),
            links.subrange(1, links.len() as int),
        )
    }
}

/// Whether no symlink stands anywhere in the tree.
pub open spec fn no_symlinks(fs: Map<Seq<char>, Entry>) -> bool {
    forall|p: Seq<char>| #[trigger] fs.contains_key(p) ==> fs[p] is Regular
}

/// The tree after deactivating the mods `mods`: every destination they
/// could have linked that holds a symlink is removed.
pub open spec fn deactivated(
    layout: Seq<Layout>,
    game: Seq<char>,
    fs: Map<Seq<char>, Entry>,
    mods: Seq<InstalledMod>,
) -> Map<Seq<char>, Entry> {
    let candidates = preset_destinations(layout, game, mods);
    fs.remove_keys(removals(candidates, link_flags(fs, candidates)).to_set())
}

proof fn lemma_removals_contains(candidates: Seq<Seq<char>>, is_link: Seq<bool>, p: Seq<char>)
    requires
        candidates.len() == is_link.len(),
    ensures
        removals(candidates, is_link).contains(p) <==> exists|i: int|
            0 <= i < candidates.len() && candidates[i] == p && #[trigger] is_link[i],
    decreases candidates.len(),
{
    if candidates.len() > 0 {
        let c = candidates.drop_last();
        let f = is_link.drop_last();
        lemma_removals_contains(c, f, p);
        let earlier = removals(c, f);
        let n = candidates.len() - 1;
        if removals(candidates, is_link).contains(p) {
            if earlier.contains(p) {
                let i = choose|i: int| 0 <= i < c.len() && c[i] == p && #[trigger] f[i];
                assert(candidates[i] == p && is_link[i]);
            } else {
                let k = choose|k: int| 0 <= k < removals(candidates, is_link).len() && removals(candidates, is_link)[k] == p;
                assert(candidates[n] == p && is_link[n]);
            }
        }
        if exists|i: int| 0 <= i < candidates.len() && candidates[i] == p && #[trigger] is_link[i] {
            let i = choose|i: int| 0 <= i < candidates.len() && candidates[i] == p && #[trigger] is_link[i];
            if i < n {
                assert(c[i] == p && f[i]);
                assert(earlier.contains(p));
                if !(is_link.last() && !earlier.contains(candidates.last())) {
                } else {
                    assert(removals(candidates, is_link) == earlier.push(candidates.last()));
                    let k = choose|k: int| 0 <= k < earlier.len() && earlier[k] == p;
                    assert(removals(candidates, is_link)[k] == p);
                }
            } else {
                if earlier.contains(p) {
                    let k = choose|k: int| 0 <= k < earlier.len() && earlier[k] == p;
                    assert(removals(candidates, is_link)[k] == p);
                } else {
                    assert(removals(candidates, is_link).last() == p);
                }
            }
        }
    }
}

/// Every path that `link_all` adds holds a symlink and is the destination of
/// one of the links; every path already there is left as it was.
proof fn lemma_link_all(fs: Map<Seq<char>, Entry>, links: Seq<Link>)
    ensures
        forall|p: Seq<char>| #[trigger]
            fs.contains_key(p) ==> link_all(fs, links).contains_key(p) && link_all(fs, links)[p]
                == fs[p],
        forall|p: Seq<char>|
            #[trigger] link_all(fs, links).contains_key(p) && !fs.contains_key(p) ==> {
                &&& link_all(fs, links)[p] is Symlink
                &&& exists|i: int| 0 <= i < links.len() && #[trigger] links[i].1 == p
            },
    decreases links.len(),
{
    if links.len() > 0 && !fs.contains_key(links[0].1) {
        let fs1 = fs.insert(links[0].1, Entry::Symlink(links[0].0));
        let rest = links.subrange(1, links.len() as int);
        lemma_link_all(fs1, rest);
        assert forall|p: Seq<char>| #[trigger] fs.contains_key(p) implies link_all(
            fs,
            links,
        ).contains_key(p) && link_all(fs, links)[p] == fs[p] by {
            assert(fs1.contains_key(p) && fs1[p] == fs[p]);
        }
        assert forall|p: Seq<char>|
            #[trigger] link_all(fs, links).contains_key(p) && !fs.contains_key(p) implies exists|
            i: int,
        | 0 <= i < links.len() && #[trigger] links[i].1 == p by {
            if p == links[0].1 {
                assert(links[0].1 == p);
            } else {
                assert(!fs1.contains_key(p));
                let j = choose|j: int| 0 <= j < rest.len() && #[trigger] rest[j].1 == p;
                assert(links[j + 1].1 == p);
            }
        }
    }
}

/// Each link of a mod's activation has a destination that its deactivation
/// looks at.
proof fn lemma_mod_links_covered(layout: Seq<Layout>, game: Seq<char>, storage: Seq<char>, spec: Option<ModSpec>, i: int)
    requires
        0 <= i < mod_links(layout, game, storage, spec).len(),
    ensures
        mod_destinations(layout, game, storage, spec).contains(mod_links(layout, game, storage, spec)[i].1),
{
    let links = mod_links(layout, game, storage, spec);
    let dests = mod_destinations(layout, game, storage, spec);
    assert(dests[i] == links[i].1);
}

proof fn lemma_preset_links_covered(layout: Seq<Layout>, game: Seq<char>, mods: Seq<InstalledMod>, i: int)
    requires
        0 <= i < preset_links(layout, game, mods).len(),
    ensures
        preset_destinations(layout, game, mods).contains(preset_links(layout, game, mods)[i].1),
    decreases mods.len(),
{
    let own = mod_links(layout, game, mods[0].storage_path@, mods[0].spec);
    let own_d = mod_destinations(layout, game, mods[0].storage_path@, mods[0].spec);
    let rest = mods.subrange(1, mods.len() as int);
    let all_d = preset_destinations(layout, game, mods);
    if i < own.len() {
        lemma_mod_links_covered(layout, game, mods[0].storage_path@, mods[0].spec, i);
        let k = choose|k: int| 0 <= k < own_d.len() && own_d[k] == own[i].1;
        assert(all_d[k] == own_d[k]);
    } else {
        lemma_preset_links_covered(layout, game, rest, i - own.len());
        let rest_d = preset_destinations(layout, game, rest);
        let k = choose|k: int| 0 <= k < rest_d.len() && rest_d[k] == preset_links(layout, game, rest)[i - own.len()].1;
        assert(all_d[own_d.len() + k] == rest_d[k]);
    }
}

/// Deactivating a preset right after activating it removes every symlink the
/// activation created and leaves the game's tree exactly as it was before:
/// where the tree held no symlink, none remains, and no regular file or
/// directory is touched by either step. This holds also where activation
/// stopped early at a destination that was already taken.
pub proof fn lemma_deactivate_undoes_activate(
    layout: Seq<Layout>,
    game: Seq<char>,
    mods: Seq<InstalledMod>,
    fs: Map<Seq<char>, Entry>,
)
    requires
        no_symlinks(fs),
    ensures
        forall|p: Seq<char>| #[trigger]
            fs.contains_key(p) ==> link_all(fs, preset_links(layout, game, mods)).contains_key(p)
                && link_all(fs, preset_links(layout, game, mods))[p] == fs[p],
        deactivated(layout, game, link_all(fs, preset_links(layout, game, mods)), mods) == fs,
        no_symlinks(deactivated(layout, game, link_all(fs, preset_links(layout, game, mods)), mods)),
{
    let links = preset_links(layout, game, mods);
    let fs1 = link_all(fs, links);
    let candidates = preset_destinations(layout, game, mods);
    let flags = link_flags(fs1, candidates);
    let gone = removals(candidates, flags);
    lemma_link_all(fs, links);
    let fs2 = fs1.remove_keys(gone.to_set());
    assert forall|p: Seq<char>| #[trigger] fs2.contains_key(p) == fs.contains_key(p) by {
        lemma_removals_contains(candidates, flags, p);
        if fs.contains_key(p) {
            assert(fs1[p] is Regular);
            if gone.contains(p) {
                let i = choose|i: int| 0 <= i < candidates.len() && candidates[i] == p && #[trigger] flags[i];
                assert(flags[i] == (fs1.contains_key(candidates[i]) && fs1[candidates[i]] is Symlink));
            }
            assert(!gone.to_set().contains(p));
        } else if fs1.contains_key(p) {
            let i = choose|i: int| 0 <= i < links.len() && #[trigger] links[i].1 == p;
            lemma_preset_links_covered(layout, game, mods, i);
            let k = choose|k: int| 0 <= k < candidates.len() && candidates[k] == p;
            assert(flags[k]);
            assert(gone.contains(p));
            assert(gone.to_set().contains(p));
        }
    }
    assert(fs2 =~= fs);
}

/// Switching a game from preset `a` to preset `b`, starting where no symlink
/// stands and where `a` was activated in full, leaves exactly the tree that
/// activating `b` alone would: nothing of `a` leaks into the result.
pub proof fn lemma_switch_forgets_previous(
    layout: Seq<Layout>,
    game: Seq<char>,
    a: Seq<InstalledMod>,
    b: Seq<InstalledMod>,
    fs: Map<Seq<char>, Entry>,
)
    requires
        no_symlinks(fs),
        links_fit(fs, preset_links(layout, game, a)),
    ensures
        link_all(
            deactivated(layout, game, link_all(fs, preset_links(layout, game, a)), a),
            preset_links(layout, game, b),
        ) == link_all(fs, preset_links(layout, game, b)),
{
    lemma_deactivate_undoes_activate(layout, game, a, fs);
}

impl Profile {
    /// The symlinks that activating the mods of a preset creates, mod after
    /// mod in the preset's order (see [`Profile::activate_mod`]).
    pub fn activate_preset(&self, mods: &Vec<InstalledMod>) -> (r: Vec<(String, String)>)
        ensures
            links_view(r@) == preset_links(self.layout@, self.game.path@, mods@),
    {
        let ghost layout = self.layout@;
        let ghost game = self.game.path@;
        let mut r: Vec<(String, String)> = Vec::new();
        let mut i: usize = 0;
        assert(mods@.subrange(0, mods@.len() as int) =~= mods@);
        assert(links_view(r@) + preset_links(layout, game, mods@) =~= preset_links(layout, game, mods@));
        while i < mods.len()
            invariant
                0 <= i <= mods@.len(),
                layout == self.layout@,
                game == self.game.path@,
                preset_links(layout, game, mods@) == links_view(r@) + preset_links(
                    layout,
                    game,
                    mods@.subrange(i as int, mods@.len() as int),
                ),
            decreases mods@.len() - i,
        {
            let ghost rest = mods@.subrange(i as int, mods@.len() as int);
            assert(rest[0] == mods@[i as int]);
            assert(rest.subrange(1, rest.len() as int) =~= mods@.subrange(i + 1, mods@.len() as int));
            let ghost before = r@;
            let mut links = self.activate_mod(mods[i].storage_path.as_str(), &mods[i].spec);
            let ghost added = links@;
            r.append(&mut links);
            assert(links_view(r@) =~= links_view(before) + links_view(added));
            assert(preset_links(layout, game, mods@) =~= links_view(r@) + preset_links(
                layout,
                game,
                mods@.subrange(i + 1, mods@.len() as int),
            ));
            i = i + 1;
        }
        assert(mods@.subrange(i as int, mods@.len() as int) =~= Seq::<InstalledMod>::empty());
        assert(links_view(r@) =~= preset_links(layout, game, mods@));
        r
    }

    /// The destinations that deactivating the mods of a preset looks at: for
    /// each mod with a manifest, the destination of every file whose point
    /// resolves, in order. Only those that hold a symlink are removed (see
    /// [`links_to_remove`]).
    pub fn deactivation_candidates(&self, mods: &Vec<InstalledMod>) -> (r: Vec<String>)
        ensures
            strings_view(r@) == preset_destinations(self.layout@, self.game.path@, mods@),
    {
        let ghost layout = self.layout@;
        let ghost game = self.game.path@;
        let mut r: Vec<String> = Vec::new();
        let mut i: usize = 0;
        assert(mods@.subrange(0, mods@.len() as int) =~= mods@);
        assert(strings_view(r@) + preset_destinations(layout, game, mods@) =~= preset_destinations(layout, game, mods@));
        while i < mods.len()
            invariant
                0 <= i <= mods@.len(),
                layout == self.layout@,
                game == self.game.path@,
                preset_destinations(layout, game, mods@) == strings_view(r@) + preset_destinations(
                    layout,
                    game,
                    mods@.subrange(i as int, mods@.len() as int),
                ),
            decreases mods@.len() - i,
        {
            let ghost rest = mods@.subrange(i as int, mods@.len() as int);
            assert(rest[0] == mods@[i as int]);
            assert(rest.subrange(1, rest.len() as int) =~= mods@.subrange(i + 1, mods@.len() as int));
            let ghost before = r@;
            if let Some(spec) = &mods[i].spec {
                let links = self.file_links(mods[i].storage_path.as_str(), &spec.files);
                let mut j: usize = 0;
                while j < links.len()
                    invariant
                        0 <= j <= links@.len(),
                        strings_view(r@) == strings_view(before) + links_view(links@).subrange(0, j as int).map_values(|l: Link| l.1),
                    decreases links@.len() - j,
                {
                    let ghost r0 = r@;
                    r.push(links[j].1.clone());
                    assert(strings_view(r@) =~= strings_view(r0).push(links@[j as int].1@));
                    assert(links_view(links@)[j as int].1 == links@[j as int].1@);
                    assert(links_view(links@).subrange(0, j + 1) =~= links_view(links@).subrange(0, j as int).push(links_view(links@)[j as int]));
                    assert(links_view(links@).subrange(0, j + 1).map_values(|l: Link| l.1) =~= links_view(links@).subrange(0, j as int).map_values(|l: Link| l.1).push(links@[j as int].1@));
                    assert(strings_view(r@) =~= strings_view(before) + links_view(links@).subrange(0, j + 1).map_values(|l: Link| l.1));
                    j = j + 1;
                }
                assert(links_view(links@).subrange(0, j as int) =~= links_view(links@));
            } else {
                assert(strings_view(r@) =~= strings_view(before) + Seq::<Seq<char>>::empty());
            }
            assert(preset_destinations(layout, game, mods@) =~= strings_view(r@) + preset_destinations(
                layout,
                game,
                mods@.subrange(i + 1, mods@.len() as int),
            ));
            i = i + 1;
        }
        assert(mods@.subrange(i as int, mods@.len() as int) =~= Seq::<InstalledMod>::empty());
        assert(strings_view(r@) =~= preset_destinations(layout, game, mods@));
        r
    }
}

/// The candidates to remove, given for each whether a symlink stands there:
/// those that hold one, in order, each once.
pub fn links_to_remove(candidates: &Vec<String>, is_link: &Vec<bool>) -> (r: Vec<String>)
    requires
        candidates@.len() == is_link@.len(),
    ensures
        strings_view(r@) == removals(strings_view(candidates@), is_link@),
{
    let ghost all = strings_view(candidates@);
    let mut r: Vec<String> = Vec::new();
    let mut i: usize = 0;
    while i < candidates.len()
        invariant
            0 <= i <= candidates@.len(),
            candidates@.len() == is_link@.len(),
            all == strings_view(candidates@),
            strings_view(r@) == removals(all.subrange(0, i as int), is_link@.subrange(0, i as int)),
        decreases candidates@.len() - i,
    {
        let ghost c = all.subrange(0, i + 1);
        let ghost f = is_link@.subrange(0, i + 1);
        assert(c.drop_last() =~= all.subrange(0, i as int));
        assert(f.drop_last() =~= is_link@.subrange(0, i as int));
        assert(c.last() == candidates@[i as int]@);
        let found = contains_string(&r, &candidates[i]);
        if is_link[i] && !found {
            let ghost before = r@;
            r.push(candidates[i].clone());
            assert(strings_view(r@) =~= strings_view(before).push(candidates@[i as int]@));
        }
        i = i + 1;
    }
    assert(all.subrange(0, i as int) =~= all);
    assert(is_link@.subrange(0, i as int) =~= is_link@);
    r
}

} // verus!
